use rchip8::compiler::{label_addresses, process_prog, AsmError, ProgElement};

fn label(name: &str, elem: ProgElement) -> ProgElement {
    ProgElement::LabelInstr(String::from(name), Box::new(elem))
}

#[test]
fn test_instr_into_bytes() {
    let inst = ProgElement::Instr(0xa1b2);
    assert_eq!(vec![0xa1, 0xb2], inst.into_bytes(&Vec::new()).unwrap());
}

#[test]
fn test_data_into_bytes() {
    let inst = ProgElement::Data(vec![1, 2, 3, 4, 5]);
    assert_eq!(vec![1, 2, 3, 4, 5], inst.into_bytes(&Vec::new()).unwrap());
}

#[test]
fn test_jump_into_bytes() {
    let locs = vec![(String::from("test"), 0x123)];
    let inst = ProgElement::Jump(String::from("test"));
    assert_eq!(vec![0x11, 0x23], inst.into_bytes(&locs).unwrap());
}

#[test]
fn test_call_into_bytes() {
    let locs = vec![(String::from("test"), 0xa14)];
    let inst = ProgElement::Call(String::from("test"));
    assert_eq!(vec![0x2a, 0x14], inst.into_bytes(&locs).unwrap());
}

#[test]
fn test_jumpv_into_bytes() {
    let locs = vec![(String::from("test"), 0x33e)];
    let inst = ProgElement::JumpV(String::from("test"));
    assert_eq!(vec![0xb3, 0x3e], inst.into_bytes(&locs).unwrap());
}

#[test]
fn into_bytes_reports_unknown_label() {
    let inst = ProgElement::Jump(String::from("nowhere"));
    match inst.into_bytes(&Vec::new()) {
        Err(AsmError::UnresolvedLabel(l)) => assert_eq!(l, "nowhere"),
        other => panic!("unexpected {:?}", other),
    }
}

#[test]
fn test_no_duplicate_labels() {
    let elems = vec![
        ProgElement::Instr(0),
        label("l1", ProgElement::Instr(0)),
        ProgElement::Data(vec![2, 4, 6]),
        label("l2", ProgElement::Instr(0)),
        ProgElement::Jump(String::from("l3")),
    ];
    let lbls = label_addresses(&elems).unwrap();
    assert_eq!(2, lbls.len());
    assert_eq!(lbls[0], (String::from("l1"), 0x202));
    assert_eq!(lbls[1], (String::from("l2"), 0x207));
}

#[test]
fn test_duplicate_labels() {
    let elems = vec![label("l1", ProgElement::Instr(0)), label("l1", ProgElement::Instr(0))];
    match label_addresses(&elems) {
        Err(AsmError::DuplicateLabel(l)) => assert_eq!(l, "l1"),
        other => panic!("unexpected {:?}", other),
    }
}

#[test]
fn label_on_itself_assembles_to_jump_to_origin() {
    let prog = vec![label("L", ProgElement::Jump(String::from("L")))];
    assert_eq!(process_prog(prog).unwrap(), vec![0x12, 0x00]);
}

#[test]
fn labelled_data_counts_its_bytes() {
    let prog = vec![
        label("table", ProgElement::Data(vec![1, 2, 3])),
        label("start", ProgElement::Instr(0x00e0)),
        ProgElement::Call(String::from("start")),
        ProgElement::JumpV(String::from("table")),
    ];
    assert_eq!(
        process_prog(prog).unwrap(),
        vec![1, 2, 3, 0x00, 0xe0, 0x22, 0x03, 0xb2, 0x00]
    );
}

#[test]
fn process_prog_reports_each_error() {
    let prog = vec![ProgElement::Data(vec![0; 3585])];
    assert!(matches!(process_prog(prog), Err(AsmError::TooLarge)));
    let prog = vec![ProgElement::Data(vec![0; 3584])];
    assert_eq!(process_prog(prog).unwrap().len(), 3584);
    let prog = vec![label("a", ProgElement::Instr(0)), label("a", ProgElement::Instr(0))];
    assert!(matches!(process_prog(prog), Err(AsmError::DuplicateLabel(_))));
    let prog = vec![ProgElement::Call(String::from("missing"))];
    match process_prog(prog) {
        Err(AsmError::UnresolvedLabel(l)) => assert_eq!(l, "missing"),
        other => panic!("unexpected {:?}", other),
    }
}
