use gossip_glomers::unique_id::{Handler, Reply};

#[test]
fn ids_count_up_from_zero() {
    let mut handler = Handler::new();
    for expected in 0..100u64 {
        assert_eq!(handler.generate(), expected);
    }
}

#[test]
fn generate_requests_get_ids_and_others_do_not() {
    let mut handler = Handler::default();
    assert_eq!(handler.process("generate"), Reply::GenerateOk { id: 0 });
    assert_eq!(handler.process("init"), Reply::Done);
    assert_eq!(handler.process("Generate"), Reply::Done);
    assert_eq!(handler.process(""), Reply::Done);
    assert_eq!(handler.process("generate"), Reply::GenerateOk { id: 1 });
}

#[test]
fn many_ids_are_all_different() {
    let mut handler = Handler::new();
    let mut seen: Vec<u64> = Vec::new();
    for _ in 0..500u32 {
        let id: u64 = handler.generate();
        assert!(!seen.contains(&id));
        seen.push(id);
    }
}
