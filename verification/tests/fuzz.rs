use datakiste::error::DkError;
use datakiste::io::Datakiste;

#[test]
fn fuzz_case_1() {
    let data = &[
        201u8, 196, 181, 172, 42, 100, 161, 226, 0, 0, 0, 0, 0, 0, 0, 0, 3, 0, 0, 0, 0, 0, 0, 0, 0,
        0, 0, 0, 0, 0, 0, 0, 3, 100, 226, 161, 0, 201, 86, 38,
    ] as &[u8];
    let r = Datakiste::from_bytes(data);
    assert_eq!(r.err(), Some(DkError::InvalidFormat));
}

#[test]
fn no_input_makes_the_reader_fail_otherwise_than_with_an_error() {
    let good: Vec<u8> = vec![
        0xC9, 0xC4, 0xB5, 0xAC, 0x2A, 0x64, 0xA1, 0xE2, 0, 0, 0, 0, 0, 0, 0, 0, 3, 0, 0, 0, 0, 0, 0,
        0, 0, 0, 0, 0, 0, 0, 0, 0, 1, 0, 0, 0, 0, 0, 0, 0, 4, 0, 0, 0, 0, 0, 0, 0, b'h', b'i', b's',
        b't', 1, 0, 0, 0, 1, 0, 0, 0, 0, 0, 0, 0, 0, 0, 0, 0, 0, 0, 0, 0, 0, 0, 0, 0, 1, 0, 0, 0, 0,
        0, 0, 0, 7, 0, 0, 0, 0, 0, 0, 0,
    ];
    assert!(Datakiste::from_bytes(&good).is_ok());
    // every input that is cut short
    for n in 0..good.len() {
        assert_eq!(Datakiste::from_bytes(&good[..n]).err(), Some(DkError::InvalidFormat));
    }
    // every input with one byte changed
    for i in 0..good.len() {
        for b in [0u8, 1, 0x7f, 0x80, 0xff] {
            let mut bad = good.clone();
            bad[i] = b;
            let _ = Datakiste::from_bytes(&bad);
        }
    }
    // lengths that the input cannot hold
    let mut bad = good.clone();
    for i in 32..40 {
        bad[i] = 0xff;
    }
    assert_eq!(Datakiste::from_bytes(&bad).err(), Some(DkError::InvalidFormat));
}
