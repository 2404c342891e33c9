use ray_tracer::fixed::FX_ONE;
use ray_tracer::rng::RandomStream;

#[test]
fn equal_seeds_repeat_the_stream() {
    let mut a = RandomStream::seeded(1234);
    let mut b = RandomStream::seeded(1234);
    for _ in 0..32 {
        assert_eq!(a.next_u64(), b.next_u64());
    }
    assert_eq!(a.state, b.state);
}

#[test]
fn unit_draws_lie_in_the_half_open_interval() {
    let mut rng = RandomStream::seeded(7);
    for _ in 0..256 {
        let d = rng.next_unit();
        assert!(0 <= d.bits && d.bits < FX_ONE);
    }
}

#[test]
fn different_seeds_diverge() {
    let mut a = RandomStream::seeded(1);
    let mut b = RandomStream::seeded(2);
    let first: Vec<u64> = (0..4).map(|_| a.next_u64()).collect();
    let second: Vec<u64> = (0..4).map(|_| b.next_u64()).collect();
    assert_ne!(first, second);
}
