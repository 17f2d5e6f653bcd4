use datakiste::detector::Detector;
use datakiste::event::{Event, Hit, Run};
use datakiste::unc::{is_finite_word, Unc, ValUnc, NAN_WORD};
use datakiste::{get_id_map, DaqId, DetId};

fn hit() -> Hit {
    Hit {
        daqid: DaqId(0, 0, 0, 0),
        detid: None,
        rawval: 0,
        value: None,
        energy: None,
        time: 0.0f64.to_bits(),
        trace: vec![],
    }
}

#[test]
fn into_hits() {
    let h = hit();
    let run = Run {
        events: vec![
            Event { hits: vec![h.clone(); 3] },
            Event { hits: vec![h.clone(); 4] },
            Event { hits: vec![] },
            Event { hits: vec![h.clone(); 1] },
            Event { hits: vec![h.clone(); 2] },
        ],
    };
    let mut hits = run.into_hits();
    let mut count = 0;
    while let Some(_) = hits.next() {
        count += 1;
    }
    assert_eq!(count, 10);
    assert!(hits.next().is_none());
}

#[test]
fn hits_come_in_order() {
    let mut events = vec![];
    let mut n = 0u16;
    for len in [2usize, 0, 0, 3, 1, 0] {
        let mut hits = vec![];
        for _ in 0..len {
            let mut h = hit();
            h.rawval = n;
            n += 1;
            hits.push(h);
        }
        events.push(Event { hits });
    }
    let mut hits = Run { events }.into_hits();
    for want in 0..6u16 {
        assert_eq!(hits.next().unwrap().rawval, want);
    }
    assert!(hits.next().is_none());
    assert!(Run { events: vec![] }.into_hits().next().is_none());
}

#[test]
fn events_come_in_order() {
    let run = Run {
        events: vec![
            Event { hits: vec![hit(); 3] },
            Event { hits: vec![] },
            Event { hits: vec![hit(); 1] },
        ],
    };
    let mut events = run.into_events();
    assert_eq!(events.next().unwrap().hits.len(), 3);
    assert_eq!(events.next().unwrap().hits.len(), 0);
    assert_eq!(events.next().unwrap().hits.len(), 1);
    assert!(events.next().is_none());
}

#[test]
fn apply_det_looks_the_channel_up() {
    let dets = vec![Detector::BB15B(1, 2, 3, 4), Detector::QQQ5F(1, 2, 4)];
    let map = get_id_map(&dets);
    let mut e = Event { hits: vec![hit(), hit(), hit()] };
    e.hits[0].daqid = DaqId(1, 2, 3, 6);
    e.hits[0].rawval = 100;
    e.hits[0].energy = Some(ValUnc { val: 1.0f64.to_bits(), unc: Unc(0) });
    e.hits[1].daqid = DaqId(1, 2, 5, 3);
    e.hits[1].rawval = 100;
    e.hits[2].daqid = DaqId(9, 9, 9, 9);
    e.hits[2].detid = Some(DetId(7, 7));
    e.hits[2].value = Some(7);
    e.apply_det(&dets, &map);
    assert_eq!(e.hits[0].detid, Some(DetId(1, 2)));
    assert_eq!(e.hits[0].value, Some(100));
    assert_eq!(e.hits[0].energy, None);
    assert_eq!(e.hits[1].detid, Some(DetId(2, 19)));
    assert_eq!(e.hits[1].value, Some(16383 - 100));
    assert_eq!(e.hits[2].detid, None);
    assert_eq!(e.hits[2].value, None);
}

#[test]
fn words_of_doubles() {
    assert!(is_finite_word(0.0f64.to_bits()));
    assert!(is_finite_word((-0.0f64).to_bits()));
    assert!(is_finite_word(f64::MAX.to_bits()));
    assert!(is_finite_word(f64::MIN.to_bits()));
    assert!(is_finite_word(f64::MIN_POSITIVE.to_bits()));
    assert!(!is_finite_word(f64::INFINITY.to_bits()));
    assert!(!is_finite_word(f64::NEG_INFINITY.to_bits()));
    assert!(!is_finite_word(f64::NAN.to_bits()));
    assert!(!is_finite_word((-f64::NAN).to_bits()));
    assert!(f64::from_bits(NAN_WORD).is_nan());
    for x in [1.5f64, -2.25e300, 1e-310, 9602.0] {
        assert_eq!(is_finite_word(x.to_bits()), x.is_finite());
    }
}

#[test]
fn hits_that_the_detectors_do_not_fit() {
    let dets = vec![Detector::BB10F(1, 2, 3, 4), Detector::BB15B(1, 2, 3, 20)];
    assert!(dets[0].is_inverting());
    assert!(!dets[1].is_inverting());
    let map = get_id_map(&dets);
    let mut h = hit();
    h.daqid = DaqId(1, 2, 3, 5);
    h.rawval = 16383;
    assert!(h.can_apply_det(&dets, &map));
    h.rawval = 16384;
    assert!(!h.can_apply_det(&dets, &map));
    h.daqid = DaqId(1, 2, 3, 21);
    assert!(h.can_apply_det(&dets, &map));
    // a map that names a detector that is not there
    assert!(!h.can_apply_det(&dets[..1], &map));
    h.daqid = DaqId(7, 7, 7, 7);
    assert!(h.can_apply_det(&dets[..1], &map));
    let mut bad = hit();
    bad.daqid = DaqId(1, 2, 3, 5);
    bad.rawval = 65535;
    let e = Event { hits: vec![h.clone(), bad, h] };
    assert!(!e.can_apply_det(&dets, &map));
    assert!(Event { hits: vec![] }.can_apply_det(&dets, &map));
}
