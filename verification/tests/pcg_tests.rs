use vitric::pcg::{Pcg32, Substream};

#[test]
fn deterministic_across_instances() {
    let mut a = Pcg32::new(42);
    let mut b = Pcg32::new(42);
    for _ in 0..1000 {
        assert_eq!(a.next_u32(), b.next_u32());
    }
    let mut c = Pcg32::new(43);
    assert_ne!(Pcg32::new(42).next_u32(), c.next_u32());
}

#[test]
fn snapshot_resumes_exactly() {
    let mut a = Pcg32::new(7);
    for _ in 0..123 {
        a.next_u32();
    }
    let mut b = Pcg32::from_parts(a.state(), a.increment());
    for _ in 0..100 {
        assert_eq!(a.next_u32(), b.next_u32());
    }
}

#[test]
fn range_respects_bounds() {
    let mut r = Pcg32::new(2);
    for _ in 0..1000 {
        let x = r.range_i64(-3, 3);
        assert!((-3..=3).contains(&x));
    }
}

#[test]
fn substream_same_seed_and_name_produces_same_sequence() {
    let mut a = Substream::new(42, "region:mountain");
    let mut b = Substream::new(42, "region:mountain");
    for _ in 0..1000 {
        assert_eq!(a.next_u32(), b.next_u32(), "same (seed, name) must produce identical sequences");
    }
}

#[test]
fn substream_different_name_produces_different_sequence() {
    let mut a = Substream::new(42, "region:mountain");
    let mut b = Substream::new(42, "region:forest");
    assert_ne!(a.next_u32(), b.next_u32(), "different names must produce different sequences");
}

#[test]
fn substream_different_seed_produces_different_sequence() {
    let mut a = Substream::new(42, "region:mountain");
    let mut b = Substream::new(99, "region:mountain");
    assert_ne!(a.next_u32(), b.next_u32(), "different world seeds must produce different sequences");
}

#[test]
fn substream_snapshot_round_trips() {
    let mut a = Substream::new(7, "region:mountain");
    for _ in 0..123 {
        a.next_u32();
    }
    let mut b = Substream::from_parts(a.state(), a.increment());
    for _ in 0..100 {
        assert_eq!(a.next_u32(), b.next_u32(), "restored substream must resume exactly");
    }
}

// The reference PCG32 seeding: state 0 with increment 109, one draw, add the seed, one draw.
#[test]
fn main_stream_seeding_matches_reference_flow() {
    let inc: u64 = 109;
    let step = |s: u64| s.wrapping_mul(6364136223846793005).wrapping_add(inc);
    let s1 = step(0).wrapping_add(42);
    let expected_state = step(s1);
    let r = Pcg32::new(42);
    assert_eq!(r.increment(), 109);
    assert_eq!(r.state(), expected_state);
}

// One draw: the XSH-RR output of the old state, then one LCG step.
#[test]
fn next_u32_is_xsh_rr_of_the_old_state() {
    let mut r = Pcg32::from_parts(0x0123_4567_89ab_cdef, 109);
    let old: u64 = 0x0123_4567_89ab_cdef;
    let xorshifted = (((old >> 18) ^ old) >> 27) as u32;
    let rot = (old >> 59) as u32;
    assert_eq!(r.next_u32(), xorshifted.rotate_right(rot));
    assert_eq!(r.state(), old.wrapping_mul(6364136223846793005).wrapping_add(109));
}

// Substream increments are always odd, whatever the name hashes to.
#[test]
fn substream_increment_is_odd() {
    for name in ["", "a", "region:mountain", "区域"] {
        assert_eq!(Substream::new(5, name).increment() & 1, 1);
    }
}

#[test]
fn range_single_value_and_mantissa_bound() {
    let mut r = Pcg32::new(9);
    for _ in 0..100 {
        assert_eq!(r.range_i64(7, 7), 7);
    }
    let mut m = Pcg32::new(3);
    for _ in 0..100 {
        assert!(m.next_mantissa53() < (1u64 << 53));
    }
}

#[test]
fn distinct_seeds_give_distinct_generators() {
    let a = Pcg32::new(42);
    let b = Pcg32::new(43);
    assert_ne!(a, b);
    assert_ne!(a.state(), b.state());
    assert_eq!(Pcg32::new(42), Pcg32::new(42));
}

#[test]
fn substreams_of_different_worlds_differ() {
    let a = Substream::new(1, "weather");
    let b = Substream::new(2, "weather");
    assert!(a.state() != b.state() || a.increment() != b.increment());
}
