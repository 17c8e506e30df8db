use source_demo_tool::demo_file::packet::netmessage::{
    PacketEntityData, PacketEntityDataParse, ParsedPacketData, UpdateType,
};

struct Bits {
    bytes: Vec<u8>,
    len: usize,
}

impl Bits {
    fn new() -> Self {
        Bits { bytes: Vec::new(), len: 0 }
    }

    fn push(&mut self, value: u64, n: usize) {
        for i in 0..n {
            if self.len % 8 == 0 {
                self.bytes.push(0);
            }
            if (value >> i) & 1 == 1 {
                let last = self.bytes.len() - 1;
                self.bytes[last] |= 1 << (self.len % 8);
            }
            self.len += 1;
        }
    }

    fn finish(mut self) -> Vec<u8> {
        while self.bytes.len() < 4 {
            self.bytes.push(0);
        }
        self.bytes
    }
}

fn packet(bytes: Vec<u8>, updated: u64, is_delta: u64) -> PacketEntityData {
    PacketEntityData {
        max_entries: Some(64),
        updated_entries: Some(updated),
        is_delta: Some(is_delta),
        update_baseline: Some(0),
        baseline: Some(0),
        delta_from: None,
        entity_data: Some(bytes),
    }
}

fn types(p: &ParsedPacketData) -> Vec<UpdateType> {
    p.data.iter().map(|e| e.update_type).collect()
}

#[test]
fn three_delta_entries() {
    let p = packet(vec![0, 0, 0, 0], 5, 1).parse(300);
    assert_eq!(types(&p), vec![UpdateType::DeltaEnt; 3]);
    for e in &p.data {
        assert_eq!(e.new_entity_idx, -1);
        assert!(e.field_indices.is_empty());
    }
}

#[test]
fn leaving_entities() {
    let mut b = Bits::new();
    // header: index 0, leave bit set, delete bit set
    b.push(0, 6);
    b.push(1, 1);
    b.push(1, 1);
    // header: index +2, leave bit set
    b.push(2, 6);
    b.push(1, 1);
    b.push(0, 1);
    // header: no flags
    b.push(0, 6);
    b.push(0, 2);
    let p = packet(b.finish(), 3, 0).parse(300);
    assert_eq!(types(&p), vec![UpdateType::LeavePVS, UpdateType::LeavePVS, UpdateType::DeltaEnt]);
}

#[test]
fn entering_entity_reads_class_serial_and_field_path() {
    let mut b = Bits::new();
    // header: index 0, enter bit
    b.push(0, 6);
    b.push(0, 1);
    b.push(1, 1);
    // class index: 300 classes take 9 bits
    b.push(17, 9);
    // serial number
    b.push(513, 10);
    // field path: old scheme, index 5 then the end marker 4095
    b.push(0, 1);
    b.push(5, 7);
    b.push(127, 7);
    b.push(127, 7);
    // two entries with no flags
    b.push(0, 8);
    b.push(0, 8);
    let p = packet(b.finish(), 3, 1).parse(300);
    assert_eq!(types(&p), vec![UpdateType::EnterPVS, UpdateType::DeltaEnt, UpdateType::DeltaEnt]);
}

#[test]
fn entering_entity_with_new_scheme_field_path() {
    let mut b = Bits::new();
    b.push(0, 6);
    b.push(0, 1);
    b.push(1, 1);
    // one class: 1 bit
    b.push(0, 1);
    b.push(0, 10);
    // new scheme: a set bit is the next property, then 3-bit index 2, then end marker
    b.push(1, 1);
    b.push(1, 1);
    b.push(0, 1);
    b.push(1, 1);
    b.push(2, 3);
    b.push(0, 1);
    b.push(0, 1);
    b.push(127, 7);
    b.push(127, 7);
    b.push(0, 8);
    b.push(0, 8);
    let p = packet(b.finish(), 4, 0).parse(1);
    assert_eq!(types(&p), vec![UpdateType::EnterPVS, UpdateType::DeltaEnt, UpdateType::DeltaEnt]);
}

#[test]
fn update_type_numbers() {
    assert_eq!(u8::from(UpdateType::EnterPVS), 0);
    assert_eq!(u8::from(UpdateType::LeavePVS), 1);
    assert_eq!(u8::from(UpdateType::DeltaEnt), 2);
    assert_eq!(u8::from(UpdateType::PreserveEnt), 3);
    assert_eq!(u8::from(UpdateType::Finished), 4);
    let n: u8 = UpdateType::Failed.into();
    assert_eq!(n, 5);
}
