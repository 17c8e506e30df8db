use vstd::prelude::*;
use crate::reader::ByteReader;
use crate::event_data::EventData;
use crate::parse_tools::join_str;
use crate::message_schema::{MessageSpec, MessageTable, DecodedMessage};
use crate::demo_file::packet::MessageParseReturn;
use crate::demo_file::frame::{
    Frame, Command, DataTablesData, FrameIndex, frame_index_spec, frame_index_view, frame_matches, command_failure,
    lemma_frame_index_consumes, CommandIndexModel,
};
use crate::demo_file::header::{DemoHeader, HeaderModel, demo_header_spec, header_view};

pub mod frame;
pub mod game_event;
pub mod header;
pub mod packet;
pub mod user_message_data;

pub use self::game_event::{FullGameEvent, FullGameEventKey, FullGameEventKeyType};
pub use self::user_message_data::ParsedUserMessage;

verus! {

/// The model of why a demo could not be read: a failure whose details are
/// known exactly, or one whose details start with a known prefix.
pub enum DemoFailure {
    Exact(Seq<char>),
    Prefixed(Seq<char>),
}

/// Whether an error message is the one a failure model describes.
pub open spec fn demo_failure_matches(e: Seq<char>, f: DemoFailure) -> bool {
    match f {
        DemoFailure::Exact(d) => e == d,
        DemoFailure::Prefixed(p) => p.is_prefix_of(e),
    }
}

/// The model of an undecoded frame.
pub type FrameModel = (CommandIndexModel, i32, u8);

/// Reading frames until `s` is used up or a frame cannot be read: the
/// undecoded frames read, and the details of the frame that could not be
/// read, if one could not.
pub open spec fn frames_read(s: Seq<u8>) -> (Seq<FrameModel>, Option<Seq<char>>)
    decreases s.len(),
{
    if s.len() == 0 {
        (Seq::empty(), None)
    } else {
        let (r, rest) = frame_index_spec(s);
        match r {
            Err(e) => (Seq::empty(), Some(e)),
            Ok(x) => if rest.len() < s.len() {
                let (xs, e) = frames_read(rest);
                (seq![x] + xs, e)
            } else {
                (seq![x], None)
            },
        }
    }
}

/// The failure of the first frame (from index `i` on) whose body cannot be decoded.
pub open spec fn first_failure(specs: Seq<MessageSpec>, xs: Seq<FrameModel>, i: nat) -> Option<Seq<char>>
    decreases xs.len() - i,
{
    if i >= xs.len() {
        None
    } else {
        match command_failure(xs[i as int].0, specs) {
            Some(e) => Some(e),
            None => first_failure(specs, xs, i + 1),
        }
    }
}

/// Reading and decoding the sign-on frames, one after the other, until `s`
/// is used up.
pub open spec fn sign_on_spec(specs: Seq<MessageSpec>, s: Seq<u8>) -> Result<Seq<FrameModel>, DemoFailure>
    decreases s.len(),
{
    if s.len() == 0 {
        Ok(Seq::empty())
    } else {
        let (r, rest) = frame_index_spec(s);
        match r {
            Err(_) => Err(DemoFailure::Prefixed("invalid or corrupt sign_on_data: "@)),
            Ok(x) => match command_failure(x.0, specs) {
                Some(e) => Err(DemoFailure::Exact(e)),
                None => if rest.len() < s.len() {
                    match sign_on_spec(specs, rest) {
                        Ok(xs) => Ok(seq![x] + xs),
                        Err(e) => Err(e),
                    }
                } else {
                    Err(DemoFailure::Exact(Seq::empty()))
                },
            },
        }
    }
}

/// Whether `p` is a permutation of `0 .. n`.
pub open spec fn is_permutation(p: Seq<int>, n: nat) -> bool {
    &&& p.len() == n
    &&& forall|i: int| 0 <= i < n ==> 0 <= #[trigger] p[i] < n
    &&& forall|i: int, j: int| 0 <= i < j < n ==> p[i] != p[j]
}

/// Whether frames are in order of their ticks.
pub open spec fn sorted_by_tick(fs: Seq<Frame>) -> bool {
    forall|i: int, j: int| 0 <= i < j < fs.len() ==> fs[i].tick <= fs[j].tick
}

/// The Debug rendering of an event, used in error messages.  Nothing is
/// stated of the text.
#[verifier::external_body]
fn debug_event(e: &EventData) -> String {
    format!("{:?}", e)
}

/// An error message made of a prefix and the rendering of an event.
fn prefixed_event(prefix: &str, e: &EventData) -> (s: String)
    ensures
        prefix@.is_prefix_of(s@),
{
    let text = debug_event(e);
    let s = join_str(prefix, text.as_str());
    proof {
        assert(s@.subrange(0, prefix@.len() as int) =~= prefix@);
    }
    s
}

/// Orders frames by tick.  When some frame could not be decoded, fails with
/// the first such failure instead.
pub fn receive_parsed_frames(results: Vec<Result<Frame, &'static str>>) -> (r: Result<Vec<Frame>, &'static str>)
    ensures
        (exists|i: int| 0 <= i < results@.len() && results@[i] is Err) ==> (r matches Err(e) && exists|i: int|
            0 <= i < results@.len() && results@[i] == Err::<Frame, &'static str>(e)
                && forall|j: int| 0 <= j < i ==> results@[j] is Ok),
        (forall|i: int| 0 <= i < results@.len() ==> results@[i] is Ok) ==> (r matches Ok(v) && sorted_by_tick(v@)
            && v@.len() == results@.len() && exists|p: Seq<int>| is_permutation(p, results@.len()) && forall|k: int| 0 <= k < v@.len()
                ==> Ok::<Frame, &'static str>(#[trigger] v@[k]) == results@[p[k]]),
{
    let ghost orig = results@;
    let mut pending = results;
    let mut frames: Vec<Frame> = Vec::new();
    let ghost mut perm: Seq<int> = Seq::empty();
    let mut i: usize = 0;
    let total = pending.len();
    while pending.len() > 0
        invariant
            orig == results@,
            total == orig.len(),
            i <= total,
            pending@ =~= orig.skip(i as int),
            forall|j: int| 0 <= j < i ==> orig[j] is Ok,
            frames@.len() == i,
            sorted_by_tick(frames@),
            perm.len() == i,
            forall|k: int| 0 <= k < i ==> 0 <= #[trigger] perm[k] < i,
            forall|k: int, l: int| 0 <= k < l < i ==> perm[k] != perm[l],
            forall|k: int| 0 <= k < i ==> Ok::<Frame, &'static str>(#[trigger] frames@[k]) == orig[perm[k]],
        decreases pending@.len(),
    {
        let ghost before = pending@;
        let next = pending.remove(0);
        proof {
            assert(before[0] == orig[i as int]);
            assert(pending@ =~= orig.skip(i as int + 1));
        }
        let frame = match next {
            Ok(f) => f,
            Err(e) => {
                proof {
                    assert(orig[i as int] == Err::<Frame, &'static str>(e));
                }
                return Err(e);
            },
        };
        let mut pos: usize = 0;
        while pos < frames.len() && frames[pos].tick <= frame.tick
            invariant
                pos <= frames@.len(),
                forall|k: int| 0 <= k < pos ==> frames@[k].tick <= frame.tick,
            decreases frames@.len() - pos,
        {
            pos = pos + 1;
        }
        let ghost old_frames = frames@;
        let ghost old_perm = perm;
        frames.insert(pos, frame);
        proof {
            perm = old_perm.insert(pos as int, i as int);
            assert forall|k: int| 0 <= k < i + 1 implies Ok::<Frame, &'static str>(#[trigger] frames@[k]) == orig[perm[k]] by {
                if k < pos {
                    assert(frames@[k] == old_frames[k]);
                } else if k > pos {
                    assert(frames@[k] == old_frames[k - 1]);
                }
            }
            assert forall|a: int, b: int| 0 <= a < b < frames@.len() implies frames@[a].tick <= frames@[b].tick by {
                if pos < old_frames.len() && frames@[pos as int].tick > old_frames[pos as int].tick {
                }
                if b == pos {
                    assert(frames@[a] == old_frames[a]);
                } else if a == pos {
                    assert(frames@[b] == old_frames[b - 1]);
                    if pos < old_frames.len() {
                        assert(!(old_frames[pos as int].tick <= frame.tick));
                        if b - 1 > pos {
                            assert(old_frames[pos as int].tick <= old_frames[b - 1].tick);
                        }
                    }
                } else if a > pos {
                    assert(frames@[a] == old_frames[a - 1]);
                    assert(frames@[b] == old_frames[b - 1]);
                } else if b > pos {
                    assert(frames@[a] == old_frames[a]);
                    assert(frames@[b] == old_frames[b - 1]);
                } else {
                    assert(frames@[a] == old_frames[a]);
                    assert(frames@[b] == old_frames[b]);
                }
            }
            assert forall|k: int| 0 <= k < i + 1 implies 0 <= #[trigger] perm[k] < i + 1 by {
                if k < pos {
                    assert(perm[k] == old_perm[k]);
                } else if k > pos {
                    assert(perm[k] == old_perm[k - 1]);
                }
            }
            assert forall|k: int, l: int| 0 <= k < l < i + 1 implies perm[k] != perm[l] by {
                if k == pos {
                    assert(perm[l] == old_perm[l - 1]);
                } else if l == pos {
                    assert(perm[k] == old_perm[k]);
                } else if k > pos {
                    assert(perm[k] == old_perm[k - 1]);
                    assert(perm[l] == old_perm[l - 1]);
                } else if l > pos {
                    assert(perm[k] == old_perm[k]);
                    assert(perm[l] == old_perm[l - 1]);
                } else {
                    assert(perm[k] == old_perm[k]);
                    assert(perm[l] == old_perm[l]);
                }
            }
        }
        i = i + 1;
    }
    proof {
        assert(is_permutation(perm, orig.len()));
    }
    Ok(frames)
}

/// A demo: where it was read from, its header, its sign-on frames in file
/// order and its other frames in order of their ticks.  A demo whose frames
/// break off is kept with the frames read before the break, and the error
/// that ended the reading in `last_index_error`.
#[derive(Debug)]
pub struct DemoFile {
    pub path: String,
    pub header: DemoHeader,
    pub frames: Vec<Frame>,
    pub sign_on_frames: Vec<Frame>,
    pub last_index_error: Option<String>,
}

/// The model of a read demo: the header, the undecoded sign-on frames, the
/// undecoded frames, and whether reading the frames broke off.
pub type DemoModel = (HeaderModel, Seq<FrameModel>, Seq<FrameModel>, bool);

/// The prefix of the error that ends the reading of the frames.
pub open spec fn index_error_prefix() -> Seq<char> {
    "error occured parsing frame index: "@
}

/// Reading a whole demo: the header, the sign-on block (its length is in
/// the header), then frames until the end or until one cannot be read.
/// The header, the undecoded sign-on frames, the undecoded frames read and
/// whether the reading broke off; or the failure.
pub open spec fn demo_spec(specs: Seq<MessageSpec>, s: Seq<u8>) -> Result<DemoModel, DemoFailure> {
    match demo_header_spec(s) {
        Err(e) => Err(DemoFailure::Exact("couldn't parse header: "@ + e)),
        Ok((h, rest)) => if rest.len() < h.sign_on_length {
            Err(DemoFailure::Exact("couldn't read sign_on_data"@))
        } else {
            let n = h.sign_on_length as int;
            match sign_on_spec(specs, rest.take(n)) {
                Err(f) => Err(f),
                Ok(so) => {
                    let (xs, broke) = frames_read(rest.skip(n));
                    match first_failure(specs, xs, 0) {
                        Some(e) => Err(DemoFailure::Exact(e)),
                        None => Ok((h, so, xs, broke is Some)),
                    }
                },
            }
        },
    }
}

/// Whether a demo is the decoding of its model.
pub open spec fn demo_matches(df: DemoFile, m: DemoModel, specs: Seq<MessageSpec>) -> bool {
    &&& header_view(df.header) == m.0
    &&& (df.last_index_error is Some) == m.3
    &&& df.last_index_error matches Some(e) ==> index_error_prefix().is_prefix_of(e@)
    &&& df.sign_on_frames@.len() == m.1.len()
    &&& forall|i: int| 0 <= i < m.1.len() ==> frame_matches(#[trigger] df.sign_on_frames@[i], m.1[i], specs)
    &&& sorted_by_tick(df.frames@)
    &&& df.frames@.len() == m.2.len()
    &&& exists|p: Seq<int>| is_permutation(p, m.2.len()) && forall|k: int| 0 <= k < df.frames@.len()
        ==> frame_matches(#[trigger] df.frames@[k], m.2[p[k]], specs)
}

/// The first failure is the one of the first frame that fails.
proof fn lemma_first_failure(specs: Seq<MessageSpec>, xs: Seq<FrameModel>, k: nat, i: nat)
    requires
        k <= i < xs.len(),
        forall|j: int| k <= j < i ==> command_failure(xs[j].0, specs) is None,
        command_failure(xs[i as int].0, specs) is Some,
    ensures
        first_failure(specs, xs, k) == command_failure(xs[i as int].0, specs),
    decreases i - k,
{
    if k < i {
        lemma_first_failure(specs, xs, k + 1, i);
    }
}

/// No frame fails from index `k` on.
proof fn lemma_no_failure(specs: Seq<MessageSpec>, xs: Seq<FrameModel>, k: nat)
    requires
        k <= xs.len(),
        forall|j: int| k <= j < xs.len() ==> command_failure(xs[j].0, specs) is None,
    ensures
        first_failure(specs, xs, k) is None,
    decreases xs.len() - k,
{
    if k < xs.len() {
        lemma_no_failure(specs, xs, k + 1);
    }
}

impl DemoFile {
    /// Reads frames until the reader is empty or a frame cannot be read:
    /// the frames read, and the error of the frame that could not be read.
    pub fn index_frames(reader: &mut ByteReader) -> (r: (Vec<FrameIndex>, Option<String>))
        requires
            old(reader).wf(),
        ensures
            final(reader).wf(),
            r.0@.len() == frames_read(old(reader)@).0.len(),
            forall|i: int| 0 <= i < r.0@.len() ==> frame_index_view(#[trigger] r.0@[i]) == frames_read(old(reader)@).0[i],
            (r.1 is Some) == (frames_read(old(reader)@).1 is Some),
            r.1 matches Some(e) ==> index_error_prefix().is_prefix_of(e@),
    {
        let ghost target = frames_read(reader@);
        let mut out: Vec<FrameIndex> = Vec::new();
        proof {
            assert(Seq::<FrameModel>::empty() + target.0 =~= target.0);
            assert(out@.map_values(|f: FrameIndex| frame_index_view(f)) =~= Seq::<FrameModel>::empty());
        }
        while reader.buf_len() > 0
            invariant
                reader.wf(),
                target == frames_read(old(reader)@),
                target.0 == out@.map_values(|f: FrameIndex| frame_index_view(f)) + frames_read(reader@).0,
                target.1 == frames_read(reader@).1,
            decreases reader@.len(),
        {
            let ghost before = reader@;
            proof {
                lemma_frame_index_consumes(before);
            }
            let fi = match FrameIndex::from_readable(reader) {
                Ok(fi) => fi,
                Err(e) => {
                    let msg = prefixed_event("error occured parsing frame index: ", &e);
                    proof {
                        let m = out@.map_values(|f: FrameIndex| frame_index_view(f));
                        assert(m + Seq::<FrameModel>::empty() =~= m);
                        assert forall|i: int| 0 <= i < out@.len() implies frame_index_view(#[trigger] out@[i]) == m[i] by {}
                    }
                    return (out, Some(msg));
                },
            };
            let ghost prev = out@.map_values(|f: FrameIndex| frame_index_view(f));
            let ghost x = frame_index_view(fi);
            out.push(fi);
            proof {
                assert(out@.map_values(|f: FrameIndex| frame_index_view(f)) =~= prev.push(x));
                let xs = frames_read(reader@).0;
                assert(prev + (seq![x] + xs) =~= prev.push(x) + xs);
            }
        }
        proof {
            let m = out@.map_values(|f: FrameIndex| frame_index_view(f));
            assert(m + Seq::<FrameModel>::empty() =~= m);
            assert forall|i: int| 0 <= i < out@.len() implies frame_index_view(#[trigger] out@[i]) == m[i] by {}
        }
        (out, None)
    }

    /// Reads and decodes the sign-on frames, in order.
    pub fn parse_sign_on_frames(data: &Vec<u8>, net: &MessageTable) -> (r: Result<Vec<Frame>, String>)
        ensures
            match sign_on_spec(net.messages@, data@) {
                Ok(xs) => r matches Ok(v) && v@.len() == xs.len() && forall|i: int| 0 <= i < xs.len()
                    ==> frame_matches(#[trigger] v@[i], xs[i], net.messages@),
                Err(f) => r matches Err(e) && demo_failure_matches(e@, f),
            },
    {
        let ghost specs = net.messages@;
        let mut reader = ByteReader::new(data.as_slice());
        let ghost target = sign_on_spec(specs, reader@);
        let mut out: Vec<Frame> = Vec::new();
        let ghost mut models: Seq<FrameModel> = Seq::empty();
        proof {
            match target {
                Ok(xs) => assert(Seq::<FrameModel>::empty() + xs =~= xs),
                Err(_) => {},
            }
        }
        while reader.buf_len() > 0
            invariant
                reader.wf(),
                specs == net.messages@,
                target == sign_on_spec(specs, data@),
                out@.len() == models.len(),
                forall|i: int| 0 <= i < models.len() ==> frame_matches(#[trigger] out@[i], models[i], specs),
                target == (match sign_on_spec(specs, reader@) {
                    Ok(xs) => Ok(models + xs),
                    Err(e) => Err(e),
                }),
            decreases reader@.len(),
        {
            let ghost before = reader@;
            proof {
                lemma_frame_index_consumes(before);
            }
            let fi = match FrameIndex::from_readable(&mut reader) {
                Ok(fi) => fi,
                Err(e) => return Err(prefixed_event("invalid or corrupt sign_on_data: ", &e)),
            };
            let ghost x = frame_index_view(fi);
            let frame = match Frame::from_frame_index(fi, net) {
                Ok(f) => f,
                Err(e) => return Err(e.to_owned()),
            };
            let ghost old_out = out@;
            out.push(frame);
            proof {
                let old_models = models;
                models = models.push(x);
                match sign_on_spec(specs, reader@) {
                    Ok(xs) => assert(old_models + (seq![x] + xs) =~= models + xs),
                    Err(_) => {},
                }
                assert forall|i: int| 0 <= i < models.len() implies frame_matches(#[trigger] out@[i], models[i], specs) by {
                    if i < old_models.len() {
                        assert(out@[i] == old_out[i]);
                    }
                }
            }
        }
        proof {
            assert(models + Seq::<FrameModel>::empty() =~= models);
        }
        Ok(out)
    }

    /// Decodes the bodies of frames, each on its own.
    pub fn decode_frames(indices: Vec<FrameIndex>, net: &MessageTable) -> (r: Vec<Result<Frame, &'static str>>)
        ensures
            r@.len() == indices@.len(),
            forall|i: int| 0 <= i < r@.len() ==> match command_failure(frame_index_view(indices@[i]).0, net.messages@) {
                None => #[trigger] r@[i] matches Ok(f) && frame_matches(f, frame_index_view(indices@[i]), net.messages@),
                Some(e) => r@[i] matches Err(x) && x@ == e,
            },
    {
        let ghost orig = indices@;
        let mut pending = indices;
        let mut out: Vec<Result<Frame, &'static str>> = Vec::new();
        while pending.len() > 0
            invariant
                out@.len() + pending@.len() == orig.len(),
                pending@ =~= orig.skip(out@.len() as int),
                forall|i: int| 0 <= i < out@.len() ==> match command_failure(frame_index_view(orig[i]).0, net.messages@) {
                    None => #[trigger] out@[i] matches Ok(f) && frame_matches(f, frame_index_view(orig[i]), net.messages@),
                    Some(e) => out@[i] matches Err(x) && x@ == e,
                },
            decreases pending@.len(),
        {
            let ghost k = out@.len();
            let ghost before = pending@;
            let fi = pending.remove(0);
            proof {
                assert(before[0] == orig[k as int]);
                assert(pending@ =~= orig.skip(k as int + 1));
            }
            let res = Frame::from_frame_index(fi, net);
            out.push(res);
        }
        out
    }

    /// Decodes frames and orders them by tick; fails with the failure of
    /// the first frame that cannot be decoded.
    pub fn frames_from_indices(indices: Vec<FrameIndex>, net: &MessageTable) -> (r: Result<Vec<Frame>, &'static str>)
        ensures
            ({
                let xs = indices@.map_values(|f: FrameIndex| frame_index_view(f));
                match first_failure(net.messages@, xs, 0) {
                    Some(e) => r matches Err(x) && x@ == e,
                    None => r matches Ok(v) && sorted_by_tick(v@) && v@.len() == xs.len() && exists|p: Seq<int>| is_permutation(p, xs.len())
                        && forall|k: int| 0 <= k < v@.len() ==> frame_matches(#[trigger] v@[k], xs[p[k]], net.messages@),
                }
            }),
    {
        let ghost specs = net.messages@;
        let ghost orig = indices@;
        let ghost xs = indices@.map_values(|f: FrameIndex| frame_index_view(f));
        let results = Self::decode_frames(indices, net);
        let frames = match receive_parsed_frames(results) {
            Ok(f) => f,
            Err(e) => {
                proof {
                    let i = choose|i: int| 0 <= i < results@.len() && results@[i] == Err::<Frame, &'static str>(e)
                        && forall|j: int| 0 <= j < i ==> results@[j] is Ok;
                    assert forall|j: int| 0 <= j < i implies command_failure(xs[j].0, specs) is None by {
                        assert(results@[j] is Ok);
                    }
                    lemma_first_failure(specs, xs, 0, i as nat);
                }
                return Err(e);
            },
        };
        proof {
            assert forall|j: int| 0 <= j < xs.len() implies command_failure(xs[j].0, specs) is None by {
                if command_failure(xs[j].0, specs) is Some {
                    assert(results@[j] is Err);
                }
            }
            lemma_no_failure(specs, xs, 0);
            let p = choose|p: Seq<int>| is_permutation(p, results@.len()) && forall|k: int| 0 <= k < frames@.len()
                ==> Ok::<Frame, &'static str>(#[trigger] frames@[k]) == results@[p[k]];
            assert forall|k: int| 0 <= k < frames@.len() implies frame_matches(#[trigger] frames@[k], xs[p[k]], specs) by {
                let j = p[k];
                assert(0 <= j < results@.len());
                assert(xs[j] == frame_index_view(orig[j]));
                assert(command_failure(xs[j].0, specs) is None);
                assert(results@[j] matches Ok(f) && frame_matches(f, frame_index_view(orig[j]), specs));
                assert(Ok::<Frame, &'static str>(frames@[k]) == results@[j]);
            }
        }
        Ok(frames)
    }

    /// Reads a whole demo from its bytes: the header, the sign-on frames,
    /// and the other frames ordered by tick; `path` is recorded as where the
    /// bytes came from.
    pub fn from_bytes(path: String, data: &[u8], net: &MessageTable) -> (r: Result<DemoFile, String>)
        ensures
            match demo_spec(net.messages@, data@) {
                Ok(m) => r matches Ok(df) && demo_matches(df, m, net.messages@) && df.path@ == path@,
                Err(f) => r matches Err(e) && demo_failure_matches(e@, f),
            },
    {
        let ghost specs = net.messages@;
        let mut reader = ByteReader::new(data);
        let header = match DemoHeader::from_readable(&mut reader) {
            Ok(h) => h,
            Err(e) => return Err(join_str("couldn't parse header: ", e.as_str())),
        };
        let ghost rest = reader@;
        let sign_on_data = match reader.read_exact(header.sign_on_length as usize) {
            Some(d) => d,
            None => return Err("couldn't read sign_on_data".to_owned()),
        };
        let sign_on_frames = Self::parse_sign_on_frames(&sign_on_data, net)?;
        let (indices, last_index_error) = Self::index_frames(&mut reader);
        let ghost xs = frames_read(rest.skip(header.sign_on_length as int)).0;
        proof {
            assert(indices@.map_values(|f: FrameIndex| frame_index_view(f)) =~= xs);
        }
        let frames = match Self::frames_from_indices(indices, net) {
            Ok(f) => f,
            Err(e) => return Err(e.to_owned()),
        };
        proof {
            let p = choose|p: Seq<int>| is_permutation(p, xs.len()) && forall|k: int| 0 <= k < frames@.len()
                ==> frame_matches(#[trigger] frames@[k], xs[p[k]], specs);
            assert(is_permutation(p, xs.len()) && forall|k: int| 0 <= k < frames@.len()
                ==> frame_matches(#[trigger] frames@[k], xs[p[k]], specs));
        }
        let df = DemoFile { path, header, frames, sign_on_frames, last_index_error };
        proof {
            let n = df.header.sign_on_length as int;
            let so = sign_on_spec(specs, rest.take(n))->Ok_0;
            let m: DemoModel = (header_view(df.header), so, xs, df.last_index_error is Some);
            assert(demo_spec(specs, data@) == Ok::<DemoModel, DemoFailure>(m));
            assert(header_view(df.header) == m.0);
            assert((df.last_index_error is Some) == m.3);
            assert(df.sign_on_frames@.len() == m.1.len());
            assert(forall|i: int| 0 <= i < m.1.len() ==> frame_matches(#[trigger] df.sign_on_frames@[i], m.1[i], specs));
            assert(sorted_by_tick(df.frames@));
            assert(df.frames@.len() == m.2.len());
            assert(exists|p: Seq<int>| is_permutation(p, m.2.len()) && forall|k: int| 0 <= k < df.frames@.len()
                ==> frame_matches(#[trigger] df.frames@[k], m.2[p[k]], specs));
            assert(demo_matches(df, m, specs));
        }
        Ok(df)
    }
}

/// The data tables among the bodies of frames, in order.
pub open spec fn data_tables_of(fs: Seq<Frame>) -> Seq<DataTablesData>
    decreases fs.len(),
{
    if fs.len() == 0 {
        Seq::empty()
    } else {
        let rest = data_tables_of(fs.drop_last());
        match fs.last().command {
            Command::DataTables(dt) => rest.push(dt),
            _ => rest,
        }
    }
}

/// The decoded messages of a sign-on frame, and of a packet frame when
/// `packets` holds (none for another frame).
pub open spec fn frame_messages(f: Frame, packets: bool) -> Seq<MessageParseReturn> {
    match f.command {
        Command::SignOn(pd) => pd.network_messages@,
        Command::Packet(pd) => if packets {
            pd.network_messages@
        } else {
            Seq::empty()
        },
        _ => Seq::empty(),
    }
}

/// The first decoded message with id `id` among `msgs`, from index `j` on.
pub open spec fn first_message_in(msgs: Seq<MessageParseReturn>, id: u64, j: nat) -> Option<DecodedMessage>
    decreases msgs.len() - j,
{
    if j >= msgs.len() {
        None
    } else {
        match msgs[j as int].message {
            Some(m) => if m.id == id {
                Some(m)
            } else {
                first_message_in(msgs, id, j + 1)
            },
            None => first_message_in(msgs, id, j + 1),
        }
    }
}

/// The first decoded message with id `id` among the messages of the
/// sign-on and packet frames of `fs`, from frame `i` on.
pub open spec fn first_frame_message(fs: Seq<Frame>, id: u64, packets: bool, i: nat) -> Option<DecodedMessage>
    decreases fs.len() - i,
{
    if i >= fs.len() {
        None
    } else {
        match first_message_in(frame_messages(fs[i as int], packets), id, 0) {
            Some(m) => Some(m),
            None => first_frame_message(fs, id, packets, i + 1),
        }
    }
}

/// The id of the `ServerInfo` network message.
pub const SERVER_INFO_ID: u64 = 8;

/// The id of the `GameEventList` network message.
pub const GAME_EVENT_LIST_ID: u64 = 30;

/// The first decoded message with id `id` among the messages of a sign-on
/// frame, or of a packet frame when `packets` holds.
fn first_message_of_frame(f: &Frame, id: u64, packets: bool) -> (r: Option<&DecodedMessage>)
    ensures
        match first_message_in(frame_messages(*f, packets), id, 0) {
            Some(m) => r matches Some(x) && *x == m,
            None => r is None,
        },
{
    let msgs = match &f.command {
        Command::SignOn(pd) => &pd.network_messages,
        Command::Packet(pd) => if packets {
            &pd.network_messages
        } else {
            return None;
        },
        _ => return None,
    };
    let mut j: usize = 0;
    while j < msgs.len()
        invariant
            j <= msgs@.len(),
            msgs@ == frame_messages(*f, packets),
            first_message_in(msgs@, id, 0) == first_message_in(msgs@, id, j as nat),
        decreases msgs@.len() - j,
    {
        if let Some(m) = &msgs[j].message {
            if m.id == id {
                return Some(m);
            }
        }
        j = j + 1;
    }
    None
}

/// The first decoded message with id `id` in the frames `fs` (in their
/// sign-on frames, and in their packet frames when `packets` holds).
fn first_message_of_frames(fs: &Vec<Frame>, id: u64, packets: bool) -> (r: Option<&DecodedMessage>)
    ensures
        match first_frame_message(fs@, id, packets, 0) {
            Some(m) => r matches Some(x) && *x == m,
            None => r is None,
        },
{
    let mut i: usize = 0;
    while i < fs.len()
        invariant
            i <= fs@.len(),
            first_frame_message(fs@, id, packets, 0) == first_frame_message(fs@, id, packets, i as nat),
        decreases fs@.len() - i,
    {
        if let Some(m) = first_message_of_frame(&fs[i], id, packets) {
            return Some(m);
        }
        i = i + 1;
    }
    None
}

/// Appends the data tables among the frames `fs`, in order.
fn collect_data_tables<'a>(fs: &'a Vec<Frame>, out: &mut Vec<&'a DataTablesData>)
    ensures
        final(out)@.len() == old(out)@.len() + data_tables_of(fs@).len(),
        forall|k: int| 0 <= k < old(out)@.len() ==> #[trigger] final(out)@[k] == old(out)@[k],
        forall|k: int| 0 <= k < data_tables_of(fs@).len() ==> *final(out)@[old(out)@.len() + k]
            == #[trigger] data_tables_of(fs@)[k],
{
    let ghost start = out@;
    let mut i: usize = 0;
    while i < fs.len()
        invariant
            i <= fs@.len(),
            out@.len() == start.len() + data_tables_of(fs@.take(i as int)).len(),
            forall|k: int| 0 <= k < start.len() ==> #[trigger] out@[k] == start[k],
            forall|k: int| 0 <= k < data_tables_of(fs@.take(i as int)).len() ==> *out@[start.len() + k]
                == #[trigger] data_tables_of(fs@.take(i as int))[k],
        decreases fs@.len() - i,
    {
        let ghost before = out@;
        let ghost prev = data_tables_of(fs@.take(i as int));
        proof {
            assert(fs@.take(i as int + 1).drop_last() =~= fs@.take(i as int));
        }
        match &fs[i].command {
            Command::DataTables(dt) => out.push(dt),
            _ => {},
        }
        proof {
            let now = data_tables_of(fs@.take(i as int + 1));
            assert forall|k: int| 0 <= k < start.len() implies #[trigger] out@[k] == start[k] by {
                assert(out@[k] == before[k]);
            }
            assert forall|k: int| 0 <= k < now.len() implies *out@[start.len() + k] == #[trigger] now[k] by {
                if k < prev.len() {
                    assert(out@[start.len() + k] == before[start.len() + k]);
                }
            }
        }
        i = i + 1;
    }
    proof {
        assert(fs@.take(fs@.len() as int) =~= fs@);
    }
}

/// The first decoded message with id `id` of a demo: searched in the
/// sign-on frames of the sign-on list first, then in the sign-on and packet
/// frames of the other frames.
pub open spec fn demo_message(df: DemoFile, id: u64) -> Option<DecodedMessage> {
    match first_frame_message(df.sign_on_frames@, id, false, 0) {
        Some(m) => Some(m),
        None => first_frame_message(df.frames@, id, true, 0),
    }
}

/// The data tables of a demo: those of the sign-on frames, then those of
/// the other frames, each in order.
pub open spec fn demo_data_tables(df: DemoFile) -> Seq<DataTablesData> {
    data_tables_of(df.sign_on_frames@) + data_tables_of(df.frames@)
}

impl DemoFile {
    /// The first decoded message with id `id`: searched in the sign-on
    /// frames, then in the other frames.
    fn first_message_with_id(&self, id: u64) -> (r: Option<&DecodedMessage>)
        ensures
            match demo_message(*self, id) {
                Some(m) => r matches Some(x) && *x == m,
                None => r is None,
            },
    {
        match first_message_of_frames(&self.sign_on_frames, id, false) {
            Some(m) => Some(m),
            None => first_message_of_frames(&self.frames, id, true),
        }
    }

    /// The data tables of the sign-on frames, then those of the other
    /// frames, each in order.
    pub fn get_data_tables(&self) -> (r: Vec<&DataTablesData>)
        ensures
            r@.len() == demo_data_tables(*self).len(),
            forall|i: int| 0 <= i < r@.len() ==> *r@[i] == #[trigger] demo_data_tables(*self)[i],
    {
        let mut dtables: Vec<&DataTablesData> = Vec::new();
        collect_data_tables(&self.sign_on_frames, &mut dtables);
        let ghost mid = dtables@;
        collect_data_tables(&self.frames, &mut dtables);
        proof {
            let a = data_tables_of(self.sign_on_frames@);
            let b = data_tables_of(self.frames@);
            assert forall|i: int| 0 <= i < dtables@.len() implies *dtables@[i] == #[trigger] demo_data_tables(*self)[i] by {
                if i < a.len() {
                    assert(dtables@[i] == mid[i]);
                    assert(*mid[0 + i] == a[i]);
                } else {
                    assert(*dtables@[mid.len() + (i - a.len())] == b[i - a.len()]);
                }
            }
        }
        dtables
    }

    /// The first `ServerInfo` message: searched in the sign-on frames, then
    /// in the other frames.
    pub fn get_server_info(&self) -> (r: Option<&DecodedMessage>)
        ensures
            match demo_message(*self, SERVER_INFO_ID) {
                Some(m) => r matches Some(x) && *x == m,
                None => r is None,
            },
    {
        self.first_message_with_id(SERVER_INFO_ID)
    }

    /// The first `GameEventList` message: searched in the sign-on frames,
    /// then in the other frames.
    pub fn get_game_event_list(&self) -> (r: Option<&DecodedMessage>)
        ensures
            match demo_message(*self, GAME_EVENT_LIST_ID) {
                Some(m) => r matches Some(x) && *x == m,
                None => r is None,
            },
    {
        self.first_message_with_id(GAME_EVENT_LIST_ID)
    }
}

/// A message found by `first_message_in` has the requested id, stands at
/// some index `j` of the list, and no decoded message before it has that id.
proof fn lemma_first_message_in(msgs: Seq<MessageParseReturn>, id: u64, j: nat)
    requires
        first_message_in(msgs, id, j) is Some,
    ensures
        ({
            let m = first_message_in(msgs, id, j)->Some_0;
            &&& m.id == id
            &&& exists|k: int| j <= k < msgs.len() && msgs[k].message == Some(m)
                && forall|l: int| j <= l < k ==> !(#[trigger] msgs[l].message matches Some(x) && x.id == id)
        }),
    decreases msgs.len() - j,
{
    let m = first_message_in(msgs, id, j)->Some_0;
    if msgs[j as int].message matches Some(x) && x.id == id {
        assert(msgs[j as int].message == Some(m));
    } else {
        lemma_first_message_in(msgs, id, j + 1);
        let k = choose|k: int| j + 1 <= k < msgs.len() && msgs[k].message == Some(m)
            && forall|l: int| j + 1 <= l < k ==> !(#[trigger] msgs[l].message matches Some(x) && x.id == id);
        assert(forall|l: int| j <= l < k ==> !(#[trigger] msgs[l].message matches Some(x) && x.id == id));
    }
}

/// The message that `get_server_info` and `get_game_event_list` find in a
/// list of frames has the requested id and is a decoded message of one of
/// those frames; no earlier frame has a decoded message with that id.
pub proof fn law_first_frame_message(fs: Seq<Frame>, id: u64, packets: bool)
    requires
        first_frame_message(fs, id, packets, 0) is Some,
    ensures
        ({
            let m = first_frame_message(fs, id, packets, 0)->Some_0;
            &&& m.id == id
            &&& exists|i: int, k: int| 0 <= i < fs.len() && 0 <= k < frame_messages(fs[i], packets).len()
                && #[trigger] frame_messages(fs[i], packets)[k].message == Some(m)
                && forall|l: int| 0 <= l < i ==> first_message_in(frame_messages(#[trigger] fs[l], packets), id, 0) is None
        }),
{
    lemma_first_frame_message(fs, id, packets, 0);
}

/// A demo's message with a given id comes from the sign-on frames of the
/// sign-on list whenever one of them has one (packet frames of that list are
/// not looked at); otherwise from the sign-on and packet frames of the other
/// frames.
pub proof fn law_sign_on_frames_first(df: DemoFile, id: u64)
    ensures
        first_frame_message(df.sign_on_frames@, id, false, 0) is Some ==> demo_message(df, id) == first_frame_message(
            df.sign_on_frames@,
            id,
            false,
            0,
        ),
        first_frame_message(df.sign_on_frames@, id, false, 0) is None ==> demo_message(df, id) == first_frame_message(
            df.frames@,
            id,
            true,
            0,
        ),
{
}

proof fn lemma_first_frame_message(fs: Seq<Frame>, id: u64, packets: bool, i: nat)
    requires
        first_frame_message(fs, id, packets, i) is Some,
    ensures
        ({
            let m = first_frame_message(fs, id, packets, i)->Some_0;
            &&& m.id == id
            &&& exists|a: int, k: int| i <= a < fs.len() && 0 <= k < frame_messages(fs[a], packets).len()
                && #[trigger] frame_messages(fs[a], packets)[k].message == Some(m)
                && forall|l: int| i <= l < a ==> first_message_in(frame_messages(#[trigger] fs[l], packets), id, 0) is None
        }),
    decreases fs.len() - i,
{
    let m = first_frame_message(fs, id, packets, i)->Some_0;
    let msgs = frame_messages(fs[i as int], packets);
    if first_message_in(msgs, id, 0) is Some {
        lemma_first_message_in(msgs, id, 0);
        let k = choose|k: int| 0 <= k < msgs.len() && msgs[k].message == Some(m)
            && forall|l: int| 0 <= l < k ==> !(#[trigger] msgs[l].message matches Some(x) && x.id == id);
        assert(frame_messages(fs[i as int], packets)[k].message == Some(m));
    } else {
        lemma_first_frame_message(fs, id, packets, i + 1);
        let (a, k) = choose|a: int, k: int| i + 1 <= a < fs.len() && 0 <= k < frame_messages(fs[a], packets).len()
            && #[trigger] frame_messages(fs[a], packets)[k].message == Some(m)
            && forall|l: int| i + 1 <= l < a ==> first_message_in(frame_messages(#[trigger] fs[l], packets), id, 0) is None;
        assert(frame_messages(fs[a], packets)[k].message == Some(m));
    }
}

} // verus!