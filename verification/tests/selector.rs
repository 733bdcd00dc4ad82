use proc_art::noise::{NoiseSelector, NOISE_SELECTORS_LEN};

#[test]
fn test_noise_selector_from_idx() {
    for i in 0..NOISE_SELECTORS_LEN {
        assert_eq!(i, NoiseSelector::from(i) as isize)
    }
    // for larger numbers, should be equal to default
    assert_eq!(
        NoiseSelector::default() as isize,
        NoiseSelector::from(255) as isize
    );
}

#[test]
fn test_noise_selector_cycle() {
    let s = NoiseSelector::Simplex;
    assert_eq!(s.get_next() as isize, NoiseSelector::Perlin as isize);
    assert_eq!(s.get_prev() as isize, NoiseSelector::FbmPerlin as isize);
    // a full cycle forward returns to the start
    let mut cur = NoiseSelector::Perlin;
    for _ in 0..NOISE_SELECTORS_LEN {
        cur = cur.get_next();
    }
    assert_eq!(cur as isize, NoiseSelector::Perlin as isize);
    // stepping back undoes stepping forward
    let there_and_back = NoiseSelector::FbmPerlin.get_next().get_prev();
    assert_eq!(there_and_back as isize, NoiseSelector::FbmPerlin as isize);
}
