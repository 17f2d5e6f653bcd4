use datakiste::detector::Detector;
use datakiste::DaqId;

fn all() -> Vec<Detector> {
    vec![
        Detector::BB10F(1, 2, 3, 4),
        Detector::BB15B(1, 2, 3, 4),
        Detector::BB15F(1, 2, 3),
        Detector::QQQ3B(1, 2, 3),
        Detector::QQQ3F(1, 2, 3),
        Detector::QQQ5B(1, 2, 3, 4),
        Detector::QQQ5F(1, 2, 3),
        Detector::YY1F(1, 2, 3),
        Detector::Hagrid(1, 2, 3, 4),
        Detector::Habanero(1, 2, 3),
        Detector::PSIC_E(1, 2, 3, 4),
        Detector::PSIC_XY(1, 2, 3),
    ]
}

#[test]
fn numbers_of_channels() {
    let n: Vec<u16> = all().iter().map(|d| d.num_chans()).collect();
    assert_eq!(n, vec![8, 4, 64, 16, 16, 4, 32, 16, 9, 60, 1, 32]);
}

#[test]
fn every_channel_is_found_again() {
    for d in all() {
        for c in 0..d.num_chans() {
            let id = d.det_to_daq(c).unwrap();
            assert!(d.contains_daq(id));
            assert_eq!(d.daq_to_det(id), Some(c));
        }
        assert_eq!(d.det_to_daq(d.num_chans()), None);
    }
}

#[test]
fn polarity() {
    let inverting: Vec<bool> = all().iter().map(|d| d.val_corr(0, 383) == 16000).collect();
    assert_eq!(
        inverting,
        vec![true, false, true, false, true, false, true, true, false, false, false, false]
    );
    assert_eq!(Detector::BB10F(0, 0, 0, 0).val_corr(3, 16383), 0);
    assert_eq!(Detector::BB15B(0, 0, 0, 0).val_corr(3, 65535), 65535);
}

#[test]
fn addresses_outside() {
    let d = Detector::BB10F(1, 2, 3, 4);
    assert!(d.contains_daq(DaqId(1, 2, 3, 4)));
    assert!(d.contains_daq(DaqId(1, 2, 3, 11)));
    assert!(!d.contains_daq(DaqId(1, 2, 3, 12)));
    assert!(!d.contains_daq(DaqId(1, 2, 3, 3)));
    assert!(!d.contains_daq(DaqId(0, 2, 3, 4)));
    assert_eq!(d.daq_to_det(DaqId(1, 2, 3, 12)), None);
    assert_eq!(d.daq_to_det(DaqId(1, 2, 3, 9)), Some(5));
    let d = Detector::BB15F(1, 2, 3);
    assert_eq!(d.daq_to_det(DaqId(1, 2, 4, 0)), Some(31));
    assert_eq!(d.daq_to_det(DaqId(1, 2, 4, 16)), None);
    assert_eq!(d.daq_to_det(DaqId(1, 2, 5, 3)), Some(35));
    assert!(!d.contains_daq(DaqId(1, 2, 7, 0)));
    assert_eq!(Detector::PSIC_E(1, 2, 3, 4).daq_to_det(DaqId(1, 2, 3, 4)), Some(0));
    // channels that have no address of 16 bits
    let d = Detector::Hagrid(1, 2, 3, 65530);
    assert_eq!(d.det_to_daq(5), Some(DaqId(1, 2, 3, 65535)));
    assert_eq!(d.det_to_daq(6), None);
    assert!(d.contains_daq(DaqId(1, 2, 3, 65535)));
    let d = Detector::Habanero(1, 2, 65535);
    assert_eq!(d.det_to_daq(15), Some(DaqId(1, 2, 65535, 15)));
    assert_eq!(d.det_to_daq(16), None);
    assert_eq!(Detector::QQQ5F(1, 2, 3).daq_to_det(DaqId(1, 2, 4, 65535)), None);
}

#[test]
fn keys_of_addresses() {
    let id = DaqId(1, 2, 3, 4);
    assert_eq!(id.key(), 0x0001_0002_0003_0004);
    assert_eq!(DaqId::from_key(id.key()), id);
    assert_eq!(DaqId::from_key(u64::MAX), DaqId(65535, 65535, 65535, 65535));
}
