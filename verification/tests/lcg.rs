use kobold_bench::Lcg;

#[test]
fn step_draws_the_known_stream() {
    let mut rng = Lcg(1);
    assert_eq!(rng.step(), 119122791515133);
    assert_eq!(rng.step(), 143385448121930);
    assert_eq!(rng.step(), 182496945315991);
}

#[test]
fn next_reduces_below_its_bound() {
    let mut rng = Lcg(1);
    let drawn: Vec<u64> = (0..4).map(|_| rng.next(10)).collect();
    assert_eq!(drawn, vec![3, 0, 1, 5]);
    assert_eq!(Lcg(5).next(0), 0);
    assert_eq!(Lcg(5).next(1), 0);
}

#[test]
fn stream_resumes_from_its_state() {
    let mut whole = Lcg(42);
    for _ in 0..10 {
        whole.step();
    }
    let mut tail = Lcg(whole.0);
    assert_eq!(tail.step(), whole.step());
}
