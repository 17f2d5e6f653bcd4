use datakiste::detector::Detector;
use datakiste::{get_id_map, DaqId, DetId};

#[test]
fn channel_maps_agree() {
    let d = Detector::BB15F(1, 2, 3);
    assert_eq!(d.num_chans(), 64);
    for c in 0..64u16 {
        let id = d.det_to_daq(c).unwrap();
        assert!(d.contains_daq(id));
        assert_eq!(d.daq_to_det(id), Some(c));
    }
    assert_eq!(d.det_to_daq(64), None);
    assert_eq!(d.det_to_daq(17), Some(DaqId(1, 2, 4, 14)));
}

#[test]
fn id_map_last_wins() {
    let dets = vec![Detector::QQQ3B(0, 0, 1), Detector::QQQ3F(0, 0, 1)];
    let map = get_id_map(&dets);
    assert_eq!(map.len(), 16);
    assert_eq!(map.get(&DaqId(0, 0, 1, 5).key()), Some(&DetId(2, 5)));
}
