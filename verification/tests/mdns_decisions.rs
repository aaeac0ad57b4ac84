use beet_esp::mdns::answer_for;
use beet_esp::mdns::build_answer;
use beet_esp::mdns::build_query;
use beet_esp::mdns::resolver_step;
use beet_esp::mdns::ResolverStep;

#[test]
fn responder_answers_queries_for_its_name() {
    let mut q = [0u8; 256];
    let n = build_query(&mut q, "beet-esp").unwrap();
    let mut out = [0u8; 256];
    let len = answer_for(&q[..n], "beet-esp", Some([192, 168, 1, 2]), &mut out).unwrap();
    let mut expected = [0u8; 256];
    let m = build_answer(&mut expected, "beet-esp", [192, 168, 1, 2]).unwrap();
    assert_eq!(&out[..len], &expected[..m]);
    // No address yet, or another name: no answer.
    assert_eq!(answer_for(&q[..n], "beet-esp", None, &mut out), None);
    assert_eq!(answer_for(&q[..n], "other", Some([1, 2, 3, 4]), &mut out), None);
}

#[test]
fn resolver_resolves_or_stays_responsive() {
    let mut a = [0u8; 256];
    let n = build_answer(&mut a, "peer", [10, 0, 0, 7]).unwrap();
    let mut out = [0u8; 256];
    assert_eq!(
        resolver_step(&a[..n], "peer", "beet-esp", Some([1, 1, 1, 1]), &mut out),
        ResolverStep::Resolved([10, 0, 0, 7])
    );
    let mut q = [0u8; 256];
    let qn = build_query(&mut q, "beet-esp").unwrap();
    match resolver_step(&q[..qn], "peer", "beet-esp", Some([1, 1, 1, 1]), &mut out) {
        ResolverStep::Reply(len) => assert!(len > 12),
        other => panic!("expected a reply, got {:?}", other),
    }
    assert_eq!(
        resolver_step(&q[..qn], "peer", "someone", Some([1, 1, 1, 1]), &mut out),
        ResolverStep::Ignore
    );
}

#[test]
fn labels_out_of_range_are_refused() {
    let mut buf = [0u8; 256];
    assert_eq!(build_query(&mut buf, ""), None);
    let long = "x".repeat(64);
    assert_eq!(build_query(&mut buf, &long), None);
    let mut small = [0u8; 10];
    assert_eq!(build_query(&mut small, "beet-esp"), None);
}
