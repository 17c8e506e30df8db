use vstd::prelude::*;
use vstd::string::StringExecFns;

verus! {

/// A description of a parse failure.
#[derive(Debug, Clone, Eq, PartialEq, PartialOrd, Ord)]
pub struct EventData {
    pub details: String,
    pub line_number: u32,
    pub function_name: String,
    pub file_name: String,
}

impl EventData {
    /// An event with the given details, raised in the given source file.
    pub fn new(details: &str, file_name: &str) -> (e: EventData)
        ensures
            e.details@ == details@,
            e.file_name@ == file_name@,
            e.function_name@ == Seq::<char>::empty(),
            e.line_number == 0,
    {
        EventData {
            details: details.to_owned(),
            line_number: 0,
            function_name: String::new(),
            file_name: file_name.to_owned(),
        }
    }
}

impl EventData {
    /// An event whose details are `prefix` followed by `rest`.
    pub fn with_suffix(prefix: &str, rest: String, file_name: &str) -> (e: EventData)
        ensures
            e.details@ == prefix@ + rest@,
            e.file_name@ == file_name@,
            e.function_name@ == Seq::<char>::empty(),
            e.line_number == 0,
    {
        let mut details = prefix.to_owned();
        details.append(rest.as_str());
        EventData { details, line_number: 0, function_name: String::new(), file_name: file_name.to_owned() }
    }
}

} // verus!
