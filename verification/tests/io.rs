use datakiste::cut::{
    Cut, Cut1d, Cut1dAbove, Cut1dBelow, Cut1dBetween, Cut2d, Cut2dCirc, Cut2dEllipse, Cut2dPoly,
    Cut2dRect,
};
use datakiste::error::DkError;
use datakiste::event::{Event, Hit, Run};
use datakiste::hist::{Hist, Hist1d, Hist2d, Hist3d, Hist4d};
use datakiste::io::text::{parse_ticks, ReadDkTxt, WriteDkTxt};
use datakiste::io::{Datakiste, DkItem, DkType};
use datakiste::points::{Points, Points1d, Points2d, Points3d, Points4d};
use datakiste::unc::{Unc, ValUnc};
use datakiste::wire::Wire;
use datakiste::{DaqId, DetId};

fn assert_f64_eq(a: f64, b: f64) {
    // this allows for the last bit of mantissa to be different
    let epsilon = f64::max(a, b) / f64::powi(2.0, 51);
    assert!((a - b).abs() <= epsilon);
}

fn read<T: Wire>(bytes: &[u8]) -> T {
    let (v, next) = T::read(bytes, 0).unwrap();
    assert_eq!(next, bytes.len());
    v
}

fn written<T: Wire>(v: &T) -> Vec<u8> {
    let mut out = Vec::new();
    v.write(&mut out);
    out
}

fn val(v: &ValUnc) -> f64 {
    f64::from_bits(v.val)
}

fn unc(v: &ValUnc) -> f64 {
    f64::from_bits(v.unc.0)
}

#[test]
fn read_write_hit_detid_none() {
    let hit_bytes = &[
        1u8, 0, // daqid.0
        0, 0, // daqid.1
        7, 0, // daqid.2
        0, 0, // daqid.3
        0, 128, // detid.0
        0, 128, // detid.1
        130, 37, // rawval
        130, 37, // value
        0, 0, 0, 0, 0, 193, 194, 64, // energy.val
        0, 0, 0, 0, 0, 0, 0, 0, // energy.unc
        0, 0, 0, 0, 48, 36, 10, 65, // time
        0, 0, 0, 0, 0, 0, 0, 0, // trace len
    ] as &[u8];

    // Read in hit from byte array
    let h: Hit = read(hit_bytes);

    // Make sure it was read correctly
    assert_eq!(h.daqid.0, 1);
    assert_eq!(h.daqid.1, 0);
    assert_eq!(h.daqid.2, 7);
    assert_eq!(h.daqid.3, 0);
    assert!(h.detid.is_none());
    assert_eq!(h.rawval, 9602);
    assert!(h.value.is_some());
    let value = h.value.unwrap();
    assert_eq!(value, 9602);
    assert!(h.energy.is_some());
    let e = h.energy.as_ref().unwrap();
    assert_f64_eq(val(e), 9602.0);
    assert_f64_eq(unc(e), 0.0);
    assert_f64_eq(f64::from_bits(h.time), 214150.0);
    assert!(h.trace.is_empty());

    // Write the hit out to a byte array
    let v = written(&h);

    // Make sure it was written out correctly
    assert_eq!(v, hit_bytes);
}

#[test]
fn read_hit_di_none() {
    let hit_bytes = &[
        1u8, 0, // daqid.0
        0, 0, // daqid.1
        7, 0, // daqid.2
        0, 0, // daqid.3
        40, 128, // detid.0
        0, 0, // detid.1
        130, 37, // rawval
        130, 37, // value
        0, 0, 0, 0, 0, 193, 194, 64, // energy.val
        0, 0, 0, 0, 0, 0, 0, 0, // energy.unc
        0, 0, 0, 0, 48, 36, 10, 65, // time
        0, 0, 0, 0, 0, 0, 0, 0, // trace len
    ] as &[u8];

    // Read in hit from byte array
    let h: Hit = read(hit_bytes);

    // Make sure it was read correctly
    assert_eq!(h.daqid.0, 1);
    assert_eq!(h.daqid.1, 0);
    assert_eq!(h.daqid.2, 7);
    assert_eq!(h.daqid.3, 0);
    assert!(h.detid.is_none());
    assert_eq!(h.rawval, 9602);
    assert!(h.value.is_some());
    let value = h.value.unwrap();
    assert_eq!(value, 9602);
    assert!(h.energy.is_some());
    let e = h.energy.as_ref().unwrap();
    assert_f64_eq(val(e), 9602.0);
    assert_f64_eq(unc(e), 0.0);
    assert_f64_eq(f64::from_bits(h.time), 214150.0);
    assert!(h.trace.is_empty());
}

#[test]
fn read_hit_dc_none() {
    let hit_bytes = &[
        1u8, 0, // daqid.0
        0, 0, // daqid.1
        7, 0, // daqid.2
        0, 0, // daqid.3
        40, 0, // detid.0
        0, 128, // detid.1
        130, 37, // rawval
        130, 37, // value
        0, 0, 0, 0, 0, 193, 194, 64, // energy.val
        0, 0, 0, 0, 0, 0, 0, 0, // energy.unc
        0, 0, 0, 0, 48, 36, 10, 65, // time
        0, 0, 0, 0, 0, 0, 0, 0, // trace len
    ] as &[u8];

    // Read in hit from byte array
    let h: Hit = read(hit_bytes);

    // Make sure it was read correctly
    assert_eq!(h.daqid.0, 1);
    assert_eq!(h.daqid.1, 0);
    assert_eq!(h.daqid.2, 7);
    assert_eq!(h.daqid.3, 0);
    assert!(h.detid.is_none());
    assert_eq!(h.rawval, 9602);
    assert!(h.value.is_some());
    let value = h.value.unwrap();
    assert_eq!(value, 9602);
    assert!(h.energy.is_some());
    let e = h.energy.as_ref().unwrap();
    assert_f64_eq(val(e), 9602.0);
    assert_f64_eq(unc(e), 0.0);
    assert_f64_eq(f64::from_bits(h.time), 214150.0);
    assert!(h.trace.is_empty());
}

#[test]
fn read_write_hit_value_none() {
    let hit_bytes = &[
        1u8, 0, // daqid.0
        0, 0, // daqid.1
        7, 0, // daqid.2
        0, 0, // daqid.3
        40, 0, // detid.0
        0, 0, // detid.1
        130, 37, // rawval
        0, 128, // value
        0, 0, 0, 0, 0, 193, 194, 64, // energy.val
        0, 0, 0, 0, 0, 0, 0, 0, // energy.unc
        0, 0, 0, 0, 48, 36, 10, 65, // time
        0, 0, 0, 0, 0, 0, 0, 0, // trace len
    ] as &[u8];

    // Read in hit from byte array
    let h: Hit = read(hit_bytes);

    // Make sure it was read correctly
    assert_eq!(h.daqid.0, 1);
    assert_eq!(h.daqid.1, 0);
    assert_eq!(h.daqid.2, 7);
    assert_eq!(h.daqid.3, 0);
    assert!(h.detid.is_some());
    let DetId(di, dc) = h.detid.unwrap();
    assert_eq!(di, 40);
    assert_eq!(dc, 0);
    assert_eq!(h.rawval, 9602);
    assert!(h.value.is_none());
    assert!(h.energy.is_some());
    let e = h.energy.as_ref().unwrap();
    assert_f64_eq(val(e), 9602.0);
    assert_f64_eq(unc(e), 0.0);
    assert_f64_eq(f64::from_bits(h.time), 214150.0);
    assert!(h.trace.is_empty());

    // Write the hit out to a byte array
    let v = written(&h);

    // Make sure it was written out correctly
    assert_eq!(v, hit_bytes);
}

#[test]
fn read_write_hit_energy_none() {
    let hit_bytes = &[
        1u8, 0, // daqid.0
        0, 0, // daqid.1
        7, 0, // daqid.2
        0, 0, // daqid.3
        40, 0, // detid.0
        0, 0, // detid.1
        130, 37, // rawval
        130, 37, // value
        0, 0, 0, 0, 0, 0, 248, 127, // energy.val
        0, 0, 0, 0, 0, 0, 248, 127, // energy.unc
        0, 0, 0, 0, 48, 36, 10, 65, // time
        0, 0, 0, 0, 0, 0, 0, 0, // trace len
    ] as &[u8];

    // Read in hit from byte array
    let h: Hit = read(hit_bytes);

    // Make sure it was read correctly
    assert_eq!(h.daqid.0, 1);
    assert_eq!(h.daqid.1, 0);
    assert_eq!(h.daqid.2, 7);
    assert_eq!(h.daqid.3, 0);
    assert!(h.detid.is_some());
    let DetId(di, dc) = h.detid.unwrap();
    assert_eq!(di, 40);
    assert_eq!(dc, 0);
    assert_eq!(h.rawval, 9602);
    assert!(h.value.is_some());
    let value = h.value.unwrap();
    assert_eq!(value, 9602);
    assert!(h.energy.is_none());
    assert_f64_eq(f64::from_bits(h.time), 214150.0);
    assert!(h.trace.is_empty());

    // Write the hit out to a byte array
    let v = written(&h);

    // Make sure it was written out correctly
    assert_eq!(v, hit_bytes);
}

#[test]
fn read_hit_energy_val_none() {
    let hit_bytes = &[
        1u8, 0, // daqid.0
        0, 0, // daqid.1
        7, 0, // daqid.2
        0, 0, // daqid.3
        40, 0, // detid.0
        0, 0, // detid.1
        130, 37, // rawval
        130, 37, // value
        0, 0, 0, 0, 0, 0, 248, 127, // energy.val
        0, 0, 0, 0, 0, 0, 0, 0, // energy.unc
        0, 0, 0, 0, 48, 36, 10, 65, // time
        0, 0, 0, 0, 0, 0, 0, 0, // trace len
    ] as &[u8];

    // Read in hit from byte array
    let h: Hit = read(hit_bytes);

    // Make sure it was read correctly
    assert_eq!(h.daqid.0, 1);
    assert_eq!(h.daqid.1, 0);
    assert_eq!(h.daqid.2, 7);
    assert_eq!(h.daqid.3, 0);
    assert!(h.detid.is_some());
    let DetId(di, dc) = h.detid.unwrap();
    assert_eq!(di, 40);
    assert_eq!(dc, 0);
    assert_eq!(h.rawval, 9602);
    assert!(h.value.is_some());
    let value = h.value.unwrap();
    assert_eq!(value, 9602);
    assert!(h.energy.is_none());
    assert_f64_eq(f64::from_bits(h.time), 214150.0);
    assert!(h.trace.is_empty());
}

#[test]
fn read_hit_energy_unc_none() {
    let hit_bytes = &[
        1u8, 0, // daqid.0
        0, 0, // daqid.1
        7, 0, // daqid.2
        0, 0, // daqid.3
        40, 0, // detid.0
        0, 0, // detid.1
        130, 37, // rawval
        130, 37, // value
        0, 0, 0, 0, 0, 193, 194, 64, // energy.val
        0, 0, 0, 0, 0, 0, 248, 127, // energy.unc
        0, 0, 0, 0, 48, 36, 10, 65, // time
        0, 0, 0, 0, 0, 0, 0, 0, // trace len
    ] as &[u8];

    // Read in hit from byte array
    let h: Hit = read(hit_bytes);

    // Make sure it was read correctly
    assert_eq!(h.daqid.0, 1);
    assert_eq!(h.daqid.1, 0);
    assert_eq!(h.daqid.2, 7);
    assert_eq!(h.daqid.3, 0);
    assert!(h.detid.is_some());
    let DetId(di, dc) = h.detid.unwrap();
    assert_eq!(di, 40);
    assert_eq!(dc, 0);
    assert_eq!(h.rawval, 9602);
    assert!(h.value.is_some());
    let value = h.value.unwrap();
    assert_eq!(value, 9602);
    assert!(h.energy.is_none());
    assert_f64_eq(f64::from_bits(h.time), 214150.0);
    assert!(h.trace.is_empty());
}

#[test]
fn read_write_hit() {
    let hit_bytes = &[
        1u8, 0, // daqid.0
        0, 0, // daqid.1
        7, 0, // daqid.2
        0, 0, // daqid.3
        40, 0, // detid.0
        0, 0, // detid.1
        130, 37, // rawval
        130, 37, // value
        0, 0, 0, 0, 0, 193, 194, 64, // energy.val
        0, 0, 0, 0, 0, 0, 0, 0, // energy.unc
        0, 0, 0, 0, 48, 36, 10, 65, // time
        0, 0, 0, 0, 0, 0, 0, 0, // trace len
    ] as &[u8];

    // Read in hit from byte array
    let h: Hit = read(hit_bytes);

    // Make sure it was read correctly
    assert_eq!(h.daqid.0, 1);
    assert_eq!(h.daqid.1, 0);
    assert_eq!(h.daqid.2, 7);
    assert_eq!(h.daqid.3, 0);
    assert!(h.detid.is_some());
    let DetId(di, dc) = h.detid.unwrap();
    assert_eq!(di, 40);
    assert_eq!(dc, 0);
    assert_eq!(h.rawval, 9602);
    assert!(h.value.is_some());
    let value = h.value.unwrap();
    assert_eq!(value, 9602);
    assert!(h.energy.is_some());
    let e = h.energy.as_ref().unwrap();
    assert_f64_eq(val(e), 9602.0);
    assert_f64_eq(unc(e), 0.0);
    assert_f64_eq(f64::from_bits(h.time), 214150.0);
    assert!(h.trace.is_empty());

    // Write the hit out to a byte array
    let v = written(&h);

    // Make sure it was written out correctly
    assert_eq!(v, hit_bytes);
}

#[test]
fn read_write_hit_trace() {
    let hit_bytes = &[
        1u8, 0, // daqid.0
        0, 0, // daqid.1
        7, 0, // daqid.2
        0, 0, // daqid.3
        40, 0, // detid.0
        0, 0, // detid.1
        130, 37, // rawval
        130, 37, // value
        0, 0, 0, 0, 0, 193, 194, 64, // energy.val
        0, 0, 0, 0, 0, 0, 0, 0, // energy.unc
        0, 0, 0, 0, 48, 36, 10, 65, // time
        10, 0, 0, 0, 0, 0, 0, 0, // trace len
        0, 0, 1, 0, 2, 0, 3, 0, 4, 0, 5, 0, 6, 0, 7, 0, 8, 0, 9, 0, // trace data
    ] as &[u8];

    // Read in hit from byte array
    let h: Hit = read(hit_bytes);

    // Make sure it was read correctly
    assert_eq!(h.daqid.0, 1);
    assert_eq!(h.daqid.1, 0);
    assert_eq!(h.daqid.2, 7);
    assert_eq!(h.daqid.3, 0);
    assert!(h.detid.is_some());
    let DetId(di, dc) = h.detid.unwrap();
    assert_eq!(di, 40);
    assert_eq!(dc, 0);
    assert_eq!(h.rawval, 9602);
    assert!(h.value.is_some());
    let value = h.value.unwrap();
    assert_eq!(value, 9602);
    assert!(h.energy.is_some());
    let e = h.energy.as_ref().unwrap();
    assert_f64_eq(val(e), 9602.0);
    assert_f64_eq(unc(e), 0.0);
    assert_f64_eq(f64::from_bits(h.time), 214150.0);
    assert_eq!(h.trace, [0u16, 1, 2, 3, 4, 5, 6, 7, 8, 9]);

    // Write the hit out to a byte array
    let v = written(&h);

    // Make sure it was written out correctly
    assert_eq!(v, hit_bytes);
}

#[test]
fn read_write_event() {
    let event_bytes = &[
        2u8, 0, 0, 0, 0, 0, 0, 0, // event len
        // hit 1
        0, 0, // daqid.0
        0, 0, // daqid.1
        10, 0, // daqid.2,
        0, 0, // daqid.3
        0, 0, // detid.0
        0, 0, // detid.1
        244, 48, // rawval
        244, 48, // value
        0, 0, 0, 0, 0, 122, 200, 64, // energy.val
        0, 0, 0, 0, 0, 0, 0, 0, // energy.unc
        0, 0, 0, 0, 192, 17, 10, 65, // time
        0, 0, 0, 0, 0, 0, 0, 0, // trace len
        // hit 2
        1, 0, // daqid.0
        0, 0, // daqid.1
        7, 0, // daqid.2
        0, 0, // daqid.3
        40, 0, // detid.0
        0, 0, // detid.1
        130, 37, // rawval
        130, 37, // value
        0, 0, 0, 0, 0, 193, 194, 64, // energy.val
        0, 0, 0, 0, 0, 0, 0, 0, // energy.unc
        0, 0, 0, 0, 48, 36, 10, 65, // time
        0, 0, 0, 0, 0, 0, 0, 0, // trace len
    ] as &[u8];

    // Read in event from byte array
    let e: Event = read(event_bytes);

    // Make sure it was read correctly (we don't check that the hits
    // were read correctly because there are separate tests for that)
    assert_eq!(e.hits.len(), 2);

    // Write the event out to a byte array
    let v = written(&e);

    // Make sure it was written out correctly
    assert_eq!(v, event_bytes);
}

#[test]
fn read_write_run() {
    let run_bytes = &[
        1u8, 0, 0, 0, 0, 0, 0, 0, // run len
        // event 1
        2, 0, 0, 0, 0, 0, 0, 0, // event len
        // hit 1
        0, 0, // daqid.0
        0, 0, // daqid.1
        10, 0, // daqid.2,
        0, 0, // daqid.3
        0, 0, // detid.0
        0, 0, // detid.1
        244, 48, // rawval
        244, 48, // value
        0, 0, 0, 0, 0, 122, 200, 64, // energy.val
        0, 0, 0, 0, 0, 0, 0, 0, // energy.unc
        0, 0, 0, 0, 192, 17, 10, 65, // time
        0, 0, 0, 0, 0, 0, 0, 0, // trace len
        // hit 2
        1, 0, // daqid.0
        0, 0, // daqid.1
        7, 0, // daqid.2
        0, 0, // daqid.3
        40, 0, // detid.0
        0, 0, // detid.1
        130, 37, // rawval
        130, 37, // value
        0, 0, 0, 0, 0, 193, 194, 64, // energy.val
        0, 0, 0, 0, 0, 0, 0, 0, // energy.unc
        0, 0, 0, 0, 48, 36, 10, 65, // time
        0, 0, 0, 0, 0, 0, 0, 0, // trace len
    ] as &[u8];

    // Read in run from byte array
    let r: Run = read(run_bytes);

    // Make sure it was read correctly (we don't check that the events
    // were read correctly because there are separate tests for that)
    assert_eq!(r.events.len(), 1);

    // Write the run out to a byte array
    let v = written(&r);

    // Make sure it was written out correctly
    assert_eq!(v, run_bytes);
}

#[test]
fn read_write_run_empty_events() {
    let run_bytes = &[
        8u8, 0, 0, 0, 0, 0, 0, 0, // run len
        // event 1
        0, 0, 0, 0, 0, 0, 0, 0, // event len
        // event 2
        0, 0, 0, 0, 0, 0, 0, 0, // event len
        // event 3
        0, 0, 0, 0, 0, 0, 0, 0, // event len
        // event 4
        0, 0, 0, 0, 0, 0, 0, 0, // event len
        // event 5
        0, 0, 0, 0, 0, 0, 0, 0, // event len
        // event 6
        0, 0, 0, 0, 0, 0, 0, 0, // event len
        // event 7
        0, 0, 0, 0, 0, 0, 0, 0, // event len
        // event 8
        0, 0, 0, 0, 0, 0, 0, 0, // event len
    ] as &[u8];

    // Read in run from byte array
    let r: Run = read(run_bytes);

    // Make sure it was read correctly (we don't check that the events
    // were read correctly because there are separate tests for that)
    assert_eq!(r.events.len(), 8);

    // Write the run out to a byte array
    let v = written(&r);

    // Make sure it was written out correctly
    assert_eq!(v, run_bytes);
}

#[test]
fn read_write_hist_1d_txt() {
    let hist_1d_txt = "0.5\t2\n1.5\t1\n2.5\t0\n";

    // Read in hist from string, with ten ticks to the unit
    let bytes = hist_1d_txt.to_string().into_bytes();
    let mut bytes = bytes.as_slice();
    let mut h1 = Hist1d::new(3, 0, 30).unwrap();
    let _ = bytes.read_to_hist_1d_txt_scaled(&mut h1, 10);

    // Make sure it was read correctly
    let h2 = Hist1d::with_counts(3, 0, 30, vec![2, 1, 0]).unwrap();
    assert_eq!(h1, h2);

    // Make sure there's nothing left over in `bytes`
    assert!(bytes.is_empty());

    // Write the hist out to a string
    let mut v = Vec::<u8>::new();
    let _ = v.write_hist_1d_txt(&h2);
    let s = String::from_utf8(v).unwrap();

    // Make sure it was written out correctly: a line for each bin that
    // has counts, with the values in ticks
    assert_eq!(s, "5\t2\n15\t1\n");

    // What was written reads back as the same histogram
    let mut bytes = s.as_bytes();
    let mut h3 = Hist1d::new(3, 0, 30).unwrap();
    assert_eq!(bytes.read_to_hist_1d_txt(&mut h3), Ok(0));
    assert_eq!(h3, h2);
}

#[test]
fn read_write_hist_1d_bin() {
    let hist_bytes = &[
        // axis
        3u8, 0, 0, 0, // bins
        0, 0, 0, 0, 0, 0, 0, 0, // min
        0, 0, 0, 0, 0, 0, 8, 64, // max
        // data
        3, 0, 0, 0, 0, 0, 0, 0, // data len
        2, 0, 0, 0, 0, 0, 0, 0, // data 1
        1, 0, 0, 0, 0, 0, 0, 0, // data 2
        0, 0, 0, 0, 0, 0, 0, 0, // data 3
    ] as &[u8];

    // Read in hit from byte array
    let h1: Hist1d = read(hist_bytes);

    // Make sure it was read correctly
    let h2 = Hist1d::with_counts(3, 0, 0x4008_0000_0000_0000, vec![2, 1, 0]).unwrap();
    assert_eq!(h1, h2);

    // Write the hit out to a byte array
    let v = written(&h1);

    // Make sure it was written out correctly
    assert_eq!(v, hist_bytes);
}

#[test]
fn read_write_hist_2d_txt() {
    let hist_2d_txt = "1\t0.5\t2\n1\t1.5\t1\n\n3\t0.5\t0\n3\t1.5\t4\n";

    // Read in hist from string, with ten ticks to the unit
    let bytes = hist_2d_txt.to_string().into_bytes();
    let mut bytes = bytes.as_slice();
    let mut h1 = Hist2d::new(2, 0, 40, 2, 0, 20).unwrap();
    let _ = bytes.read_to_hist_2d_txt_scaled(&mut h1, 10);

    // Make sure it was read correctly
    let h2 = Hist2d::with_counts(2, 0, 40, 2, 0, 20, vec![2, 1, 0, 4]).unwrap();
    assert_eq!(h1, h2);

    // Make sure there's nothing left over in `bytes`
    assert!(bytes.is_empty());

    // Write the hist out to a string
    let mut v = Vec::<u8>::new();
    let _ = v.write_hist_2d_txt(&h2);
    let s = String::from_utf8(v).unwrap();

    // Make sure it was written out correctly: a line for each bin that
    // has counts, with the values in ticks, and an empty line between rows
    assert_eq!(s, "10\t5\t2\n10\t15\t1\n\n30\t15\t4\n");

    // What was written reads back as the same histogram
    let mut bytes = s.as_bytes();
    let mut h3 = Hist2d::new(2, 0, 40, 2, 0, 20).unwrap();
    assert_eq!(bytes.read_to_hist_2d_txt(&mut h3), Ok(0));
    assert_eq!(h3, h2);
}

#[test]
fn read_write_hist_2d_bin() {
    let hist_bytes = &[
        // axis 1
        2u8, 0, 0, 0, // bins
        0, 0, 0, 0, 0, 0, 0, 0, // min
        0, 0, 0, 0, 0, 0, 16, 64, // max
        // axis 2
        2, 0, 0, 0, // bins
        0, 0, 0, 0, 0, 0, 0, 0, // min
        0, 0, 0, 0, 0, 0, 0, 64, // max
        // data
        4, 0, 0, 0, 0, 0, 0, 0, // data len
        2, 0, 0, 0, 0, 0, 0, 0, // data 1
        1, 0, 0, 0, 0, 0, 0, 0, // data 2
        0, 0, 0, 0, 0, 0, 0, 0, // data 3
        4, 0, 0, 0, 0, 0, 0, 0, // data 4
    ] as &[u8];

    // Read in hit from byte array
    let h1: Hist2d = read(hist_bytes);

    // Make sure it was read correctly
    let h2 = Hist2d::with_counts(
        2,
        0,
        0x4010_0000_0000_0000,
        2,
        0,
        0x4000_0000_0000_0000,
        vec![2, 1, 0, 4],
    )
    .unwrap();
    assert_eq!(h1, h2);

    // Write the hit out to a byte array
    let v = written(&h1);

    // Make sure it was written out correctly
    assert_eq!(v, hist_bytes);
}

const HEADER: [u8; 32] = [
    0xC9, 0xC4, 0xB5, 0xAC, 0x2A, 0x64, 0xA1, 0xE2, // Magic Number
    0, 0, 0, 0, 0, 0, 0, 0, // Version Number - Major
    3, 0, 0, 0, 0, 0, 0, 0, // Version Number - Minor
    0, 0, 0, 0, 0, 0, 0, 0, // Version Number - Patch
];

#[test]
fn empty_container() {
    let mut data = HEADER.to_vec();
    data.extend_from_slice(&[0, 0, 0, 0, 0, 0, 0, 0]); // Number of items
    let dk = Datakiste::from_bytes(&data).unwrap();
    assert_eq!(dk.len(), 0);
    assert!(dk.items.is_empty());
    assert_eq!(dk.version(), (0, 3, 0));
    assert_eq!(dk.to_bytes(), data);
    assert_eq!(Datakiste::new().to_bytes(), data);
}

#[test]
fn container_with_a_hist() {
    let mut data = HEADER.to_vec();
    data.extend_from_slice(&[
        1, 0, 0, 0, 0, 0, 0, 0, // Number of items
        4, 0, 0, 0, 0, 0, 0, 0, // Item 1 - String - size
        b'h', b'i', b's', b't', // Item 1 - String - data
        1, 0, 0, 0, // Item 1 - Type
        1, 0, 0, 0, // Item 1 - Hist1d - Axis - Bins
        0, 0, 0, 0, 0, 0, 0, 0, // Item 1 - Hist1d - Axis - Min
        0, 0, 0, 0, 0, 0, 0, 0, // Item 1 - Hist1d - Axis - Max
        1, 0, 0, 0, 0, 0, 0, 0, // Item 1 - Hist1d - data - Length
        7, 0, 0, 0, 0, 0, 0, 0, // Item 1 - Hist1d - data
    ]);
    let dk = Datakiste::from_bytes(&data).unwrap();
    assert_eq!(dk.items.len(), 1);
    let i = dk.get_index(0).unwrap();
    assert_eq!(i.0, "hist");
    assert_eq!(*i.1.as_hist_1d().unwrap(), Hist1d::with_counts(1, 0, 0, vec![7]).unwrap());
    assert_eq!(dk.to_bytes(), data);
    // what stands behind the container is not looked at
    data.push(77);
    assert_eq!(Datakiste::from_bytes(&data).unwrap().len(), 1);
}

#[test]
fn wrong_magic_number() {
    let mut data = HEADER.to_vec();
    data.extend_from_slice(&[0; 8]);
    for i in 0..8 {
        let mut bad = data.clone();
        bad[i] ^= 1;
        assert_eq!(Datakiste::from_bytes(&bad).err(), Some(DkError::InvalidFormat));
    }
    let zero = [0u8; 40];
    assert_eq!(Datakiste::from_bytes(&zero).err(), Some(DkError::InvalidFormat));
}

#[test]
fn wrong_version() {
    let mut data = HEADER.to_vec();
    data.extend_from_slice(&[0; 8]);
    for i in 8..32 {
        let mut bad = data.clone();
        bad[i] ^= 1;
        assert_eq!(Datakiste::from_bytes(&bad).err(), Some(DkError::UnsupportedVersion));
    }
    // the version is looked at before the items are
    let mut bad = data.clone();
    bad[16] = 0;
    bad[32] = 9;
    assert_eq!(Datakiste::from_bytes(&bad).err(), Some(DkError::UnsupportedVersion));
}

#[test]
fn truncated_input() {
    let mut dk = Datakiste::new();
    dk.insert("a".to_string(), Hist1d::with_counts(2, 0, 2, vec![1, 2]).unwrap().into());
    dk.insert("b".to_string(), Points2d::with_points(vec![(1, 2), (3, 4)]).into());
    let data = dk.to_bytes();
    for n in 0..data.len() {
        assert_eq!(Datakiste::from_bytes(&data[..n]).err(), Some(DkError::InvalidFormat));
    }
    assert!(Datakiste::from_bytes(&data).is_ok());
}

fn item_bytes(tag: u32, payload: &[u8]) -> Vec<u8> {
    let mut data = HEADER.to_vec();
    data.extend_from_slice(&1u64.to_le_bytes());
    data.extend_from_slice(&1u64.to_le_bytes());
    data.push(b'x');
    data.extend_from_slice(&tag.to_le_bytes());
    data.extend_from_slice(payload);
    data
}

#[test]
fn tags_of_types() {
    let tags: Vec<u32> = [
        DkType::Run,
        DkType::Hist1d,
        DkType::Hist2d,
        DkType::Hist3d,
        DkType::Hist4d,
        DkType::Points1d,
        DkType::Points2d,
        DkType::Points3d,
        DkType::Points4d,
        DkType::Cut1d,
        DkType::Cut2d,
    ]
    .iter()
    .map(|t| t.tag())
    .collect();
    assert_eq!(tags, vec![0, 1, 2, 3, 4, 11, 12, 13, 14, 15, 16]);
    for tag in 0..20u32 {
        match DkType::from_tag(tag) {
            Some(t) => assert_eq!(t.tag(), tag),
            None => assert!((5..=10).contains(&tag) || tag > 16),
        }
    }
    assert_eq!(DkType::from_tag(u32::MAX), None);
}

#[test]
fn retired_and_unknown_tags_are_refused() {
    let empty = 0u64.to_le_bytes();
    for tag in [0u32, 11, 12, 13, 14] {
        assert!(Datakiste::from_bytes(&item_bytes(tag, &empty)).is_ok());
    }
    for tag in [5u32, 6, 7, 8, 9, 10, 17, 18, 255, 256, u32::MAX] {
        let r = Datakiste::from_bytes(&item_bytes(tag, &empty));
        assert_eq!(r.err(), Some(DkError::InvalidFormat));
    }
}

fn axis(bins: u32, min: i64, max: i64) -> Vec<u8> {
    let mut v = bins.to_le_bytes().to_vec();
    v.extend_from_slice(&min.to_le_bytes());
    v.extend_from_slice(&max.to_le_bytes());
    v
}

fn counts(c: &[u64]) -> Vec<u8> {
    let mut v = (c.len() as u64).to_le_bytes().to_vec();
    for x in c {
        v.extend_from_slice(&x.to_le_bytes());
    }
    v
}

#[test]
fn histograms_that_do_not_fit_are_refused() {
    // no bins
    let mut p = axis(0, 0, 1);
    p.extend(counts(&[]));
    assert_eq!(Datakiste::from_bytes(&item_bytes(1, &p)).err(), Some(DkError::ConstraintViolation));
    // too few counts
    let mut p = axis(3, 0, 1);
    p.extend(counts(&[1, 2]));
    assert_eq!(Datakiste::from_bytes(&item_bytes(1, &p)).err(), Some(DkError::ConstraintViolation));
    // too many counts
    let mut p = axis(2, 0, 1);
    p.extend(axis(2, 0, 1));
    p.extend(counts(&[1, 2, 3, 4, 5]));
    assert_eq!(Datakiste::from_bytes(&item_bytes(2, &p)).err(), Some(DkError::ConstraintViolation));
    // more bins than can be counted
    let mut p = axis(65536, 0, 1);
    p.extend(axis(65536, 0, 1));
    p.extend(counts(&[]));
    assert_eq!(Datakiste::from_bytes(&item_bytes(2, &p)).err(), Some(DkError::ConstraintViolation));
    // counts that the input does not hold
    let mut p = axis(3, 0, 1);
    p.extend_from_slice(&3u64.to_le_bytes());
    p.extend_from_slice(&[0; 23]);
    assert_eq!(Datakiste::from_bytes(&item_bytes(1, &p)).err(), Some(DkError::InvalidFormat));
    let mut p = axis(3, 0, 1);
    p.extend_from_slice(&u64::MAX.to_le_bytes());
    assert_eq!(Datakiste::from_bytes(&item_bytes(1, &p)).err(), Some(DkError::InvalidFormat));
    // bounds in the wrong order change places
    let mut p = axis(2, 9, -9);
    p.extend(counts(&[1, 2]));
    let dk = Datakiste::from_bytes(&item_bytes(1, &p)).unwrap();
    let h = dk.get("x").unwrap().as_hist_1d().unwrap();
    assert_eq!((h.axes().min, h.axes().max), (-9, 9));
}

#[test]
fn names_must_be_utf8() {
    let mut data = HEADER.to_vec();
    data.extend_from_slice(&1u64.to_le_bytes());
    data.extend_from_slice(&2u64.to_le_bytes());
    data.extend_from_slice(&[0xC3, 0x28]);
    data.extend_from_slice(&11u32.to_le_bytes());
    data.extend_from_slice(&0u64.to_le_bytes());
    assert_eq!(Datakiste::from_bytes(&data).err(), Some(DkError::InvalidFormat));
    data[48] = 0xC3;
    data[49] = 0xA4;
    let dk = Datakiste::from_bytes(&data).unwrap();
    assert_eq!(dk.get_index(0).unwrap().0, "ä");
    assert!(dk.get("ä").is_ok());
    assert_eq!(dk.to_bytes(), data);
    // a name that is longer than the input
    data[40] = 200;
    assert_eq!(Datakiste::from_bytes(&data).err(), Some(DkError::InvalidFormat));
}

fn one_of_each() -> Datakiste<'static> {
    let hit = Hit {
        daqid: DaqId(1, 2, 3, 4),
        detid: Some(DetId(5, 6)),
        rawval: 7,
        value: None,
        energy: Some(ValUnc { val: 2.5f64.to_bits(), unc: Unc(0.5f64.to_bits()) }),
        time: 1e9f64.to_bits(),
        trace: vec![1, 2, 3],
    };
    let mut other = hit.clone();
    other.detid = None;
    other.value = Some(0x7fff);
    other.energy = None;
    other.trace = vec![];
    let run = Run { events: vec![Event { hits: vec![hit, other] }, Event { hits: vec![] }] };
    let mut dk = Datakiste::new();
    dk.insert("run".to_string(), run.into());
    dk.insert("h1".to_string(), Hist1d::with_counts(2, -5, 5, vec![1, u64::MAX]).unwrap().into());
    dk.insert(
        "h2".to_string(),
        Hist2d::with_counts(2, 0, 2, 1, i64::MIN, i64::MAX, vec![3, 4]).unwrap().into(),
    );
    dk.insert(
        "h3".to_string(),
        Hist3d::with_counts(1, 0, 1, 2, 0, 1, 1, 0, 1, vec![5, 6]).unwrap().into(),
    );
    dk.insert(
        "h4".to_string(),
        Hist4d::with_counts(1, 0, 1, 1, 0, 1, 2, 0, 1, 1, 0, 1, vec![7, 8]).unwrap().into(),
    );
    dk.insert("pts1".to_string(), Points1d::with_points(vec![-1, 0, 1]).into());
    dk.insert("pts2".to_string(), Points2d::with_points(vec![(1, -2)]).into());
    dk.insert("pts3".to_string(), Points3d::with_points(vec![(1, 2, -3), (4, 5, 6)]).into());
    dk.insert("pts4".to_string(), Points4d::with_points(vec![(i64::MIN, 2, 3, i64::MAX)]).into());
    dk.insert("".to_string(), Points1d::new().into());
    dk
}

#[test]
fn one_item_of_each_type_comes_back() {
    let dk = one_of_each();
    let data = dk.to_bytes();
    let back = Datakiste::from_bytes(&data).unwrap();
    assert_eq!(back.len(), 10);
    let names: Vec<&str> = (0..10).map(|i| back.get_index(i).unwrap().0.as_str()).collect();
    assert_eq!(names, vec!["run", "h1", "h2", "h3", "h4", "pts1", "pts2", "pts3", "pts4", ""]);
    let kinds: Vec<DkType> = (0..10).map(|i| back.get_index(i).unwrap().1.dk_type()).collect();
    assert_eq!(
        kinds,
        vec![
            DkType::Run,
            DkType::Hist1d,
            DkType::Hist2d,
            DkType::Hist3d,
            DkType::Hist4d,
            DkType::Points1d,
            DkType::Points2d,
            DkType::Points3d,
            DkType::Points4d,
            DkType::Points1d
        ]
    );
    assert_eq!(back.to_bytes(), data);
    let run = back.get("run").unwrap().as_run().unwrap();
    assert_eq!(run.events.len(), 2);
    assert_eq!(run.events[0].hits[0].trace, vec![1, 2, 3]);
    assert_eq!(run.events[0].hits[0].detid, Some(DetId(5, 6)));
    assert_eq!(run.events[0].hits[1].value, Some(0x7fff));
    assert_eq!(back.get("h1").unwrap().as_hist_1d().unwrap().counts(), &[1, u64::MAX]);
    assert_eq!(back.get("h2").unwrap().as_hist_2d().unwrap().axes().1.min, i64::MIN);
    assert_eq!(back.get("h3").unwrap().as_hist_3d().unwrap().counts(), &[5, 6]);
    assert_eq!(back.get("h4").unwrap().as_hist_4d().unwrap().counts(), &[7, 8]);
    assert_eq!(back.get("pts1").unwrap().as_points_1d().unwrap().points(), &[-1, 0, 1]);
    assert_eq!(back.get("pts2").unwrap().as_points_2d().unwrap().points(), &[(1, -2)]);
    assert_eq!(back.get("pts3").unwrap().as_points_3d().unwrap().points(), &[(1, 2, -3), (4, 5, 6)]);
    assert_eq!(
        back.get("pts4").unwrap().as_points_4d().unwrap().points(),
        &[(i64::MIN, 2, 3, i64::MAX)]
    );
    assert_eq!(back.get("nothing").err(), Some(DkError::LookupNotFound));
}

#[test]
fn layout_is_that_of_plain_lists_and_numbers() {
    // the same values, laid out field by field by another encoder
    let h = Hist2d::with_counts(2, -1, 4, 1, 0, 2, vec![3, 9]).unwrap();
    let want = bincode::serialize(&(((2u32, -1i64, 4i64), (1u32, 0i64, 2i64)), vec![3u64, 9])).unwrap();
    assert_eq!(written(&h), want);
    let p = Points3d::with_points(vec![(1, -2, 3), (-4, 5, -6)]);
    let want = bincode::serialize(&vec![(1i64, -2i64, 3i64), (-4, 5, -6)]).unwrap();
    assert_eq!(written(&p), want);
    let name = "größe".to_string();
    assert_eq!(written(&name), bincode::serialize(&name).unwrap());
    let daq = DaqId(0x0102, 3, 4, 0xffff);
    assert_eq!(written(&daq), bincode::serialize(&(0x0102u16, 3u16, 4u16, 0xffffu16)).unwrap());
    let mut dk = Datakiste::new();
    dk.insert("p".to_string(), Points1d::with_points(vec![5]).into());
    let want = bincode::serialize(&(
        0xE2A1_642A_ACB5_C4C9u64,
        (0u64, 3u64, 0u64),
        vec![("p".to_string(), 11u32, vec![5i64])],
    ))
    .unwrap();
    assert_eq!(dk.to_bytes(), want);
}

#[test]
fn last_writer_wins() {
    let mut dk = Datakiste::new();
    assert!(dk.insert("a".to_string(), Points1d::with_points(vec![1]).into()).is_none());
    assert!(dk.insert("b".to_string(), Points1d::with_points(vec![2]).into()).is_none());
    let old = dk.insert("a".to_string(), Points1d::with_points(vec![3]).into()).unwrap();
    assert_eq!(old.as_points_1d().unwrap().points(), &[1]);
    assert_eq!(dk.len(), 2);
    assert_eq!(dk.get_index(0).unwrap().0, "a");
    assert_eq!(dk.get_index(0).unwrap().1.as_points_1d().unwrap().points(), &[3]);
    assert_eq!(dk.get_index(1).unwrap().0, "b");
    assert!(dk.get_index(2).is_none());
    dk.get_mut("b").unwrap().as_points_1d_mut().unwrap().push(4);
    assert_eq!(dk.get("b").unwrap().as_points_1d().unwrap().points(), &[2, 4]);
    assert_eq!(dk.get_mut("c").err(), Some(DkError::LookupNotFound));

    // the same in a file: the second "a" takes the place of the first
    let mut data = HEADER.to_vec();
    data.extend_from_slice(&3u64.to_le_bytes());
    for (name, v) in [("a", 1i64), ("b", 2), ("a", 3)] {
        data.extend_from_slice(&1u64.to_le_bytes());
        data.extend_from_slice(name.as_bytes());
        data.extend_from_slice(&11u32.to_le_bytes());
        data.extend_from_slice(&1u64.to_le_bytes());
        data.extend_from_slice(&v.to_le_bytes());
    }
    let read = Datakiste::from_bytes(&data).unwrap();
    assert_eq!(read.to_bytes(), dk_bytes(&[("a", &[3]), ("b", &[2])]));
}

fn dk_bytes(items: &[(&str, &[i64])]) -> Vec<u8> {
    let mut dk = Datakiste::new();
    for (name, points) in items {
        dk.insert(name.to_string(), DkItem::from(Points1d::with_points(points.to_vec())));
    }
    dk.to_bytes()
}

#[test]
fn with_items_keeps_the_items() {
    let mut items = indexmap::IndexMap::new();
    items.insert("z".to_string(), DkItem::from(Points1d::with_points(vec![1])));
    items.insert("y".to_string(), DkItem::from(Points1d::with_points(vec![2])));
    let dk = Datakiste::with_items(items);
    assert_eq!(dk.version(), (0, 3, 0));
    assert_eq!(dk.to_bytes(), dk_bytes(&[("z", &[1]), ("y", &[2])]));
}

#[test]
fn values_without_a_place_in_the_layout() {
    // a detector number with its highest bit set is written, and read as none
    let mut h = Hit {
        daqid: DaqId(0, 0, 0, 0),
        detid: Some(DetId(0x8001, 2)),
        rawval: 0,
        value: Some(0xffff),
        energy: Some(ValUnc { val: f64::INFINITY.to_bits(), unc: Unc(0) }),
        time: 0,
        trace: vec![],
    };
    let back: Hit = read(&written(&h));
    assert_eq!(back.detid, None);
    assert_eq!(back.value, None);
    assert_eq!(back.energy, None);
    h.detid = Some(DetId(0x7fff, 0x7fff));
    h.value = Some(0x7fff);
    h.energy = Some(ValUnc { val: f64::MAX.to_bits(), unc: Unc((-1.0f64).to_bits()) });
    let back: Hit = read(&written(&h));
    assert_eq!(back.detid, h.detid);
    assert_eq!(back.value, h.value);
    assert_eq!(back.energy, h.energy);
}

#[test]
fn text_of_numbers() {
    let mut v = Vec::<u8>::new();
    let p = Points4d::with_points(vec![(0, -1, i64::MAX, i64::MIN), (10, 99, -100, 7)]);
    v.write_points_4d_txt(&p).unwrap();
    assert_eq!(
        String::from_utf8(v).unwrap(),
        "0\t-1\t9223372036854775807\t-9223372036854775808\n10\t99\t-100\t7\n"
    );
    let mut v = b"x".to_vec();
    v.write_points_1d_txt(&Points1d::with_points(vec![5, -5])).unwrap();
    v.write_points_2d_txt(&Points2d::with_points(vec![(1, 2)])).unwrap();
    v.write_points_3d_txt(&Points3d::with_points(vec![(1, 2, 3)])).unwrap();
    assert_eq!(String::from_utf8(v).unwrap(), "x5\n-5\n1\t2\n1\t2\t3\n");
    let mut v = Vec::<u8>::new();
    let h = Hist3d::with_counts(1, 0, 10, 2, 0, 4, 1, -2, 0, vec![u64::MAX, 0]).unwrap();
    v.write_hist_3d_txt(&h).unwrap();
    assert_eq!(String::from_utf8(v).unwrap(), "5\t1\t-1\t18446744073709551615\n");
    let mut v = Vec::<u8>::new();
    let h = Hist4d::with_counts(1, 0, 10, 1, 0, 4, 1, -2, 0, 2, 0, 2, vec![1, 2]).unwrap();
    v.write_hist_4d_txt(&h).unwrap();
    assert_eq!(String::from_utf8(v).unwrap(), "5\t2\t-1\t0\t1\n5\t2\t-1\t1\t2\n");
}

#[test]
fn text_lines_that_are_passed_over() {
    let text = "\n# a comment\n5 3\n  15\t +4  more fields\r\n25\n35 x\nx 1\n-7 2\n\
                15 18446744073709551616\n15 18446744073709551611\n15 1\n99 1.5\n1e1 1\n\
                -0 1\n+5 01\n9223372036854775808 1\n-9223372036854775808 1";
    let mut bytes = text.as_bytes();
    let mut h = Hist1d::new(3, 0, 30).unwrap();
    // eight lines with two fields or more cannot be taken
    assert_eq!(bytes.read_to_hist_1d_txt(&mut h), Ok(8));
    assert!(bytes.is_empty());
    // bin 0: 3, 2, 1, 1 and 1; bin 1: 4 and 18446744073709551611, and no more
    assert_eq!(h.counts(), &[8, u64::MAX, 0]);

    let mut bytes = "1 2\n1 2 3\n1 x 3\n30 15 +7 9\n".as_bytes();
    let mut h = Hist2d::new(2, 0, 40, 2, 0, 20).unwrap();
    assert_eq!(bytes.read_to_hist_2d_txt(&mut h), Ok(1));
    assert_eq!(h.counts(), &[3, 0, 0, 7]);
}

#[test]
fn bins_without_counts_write_no_line() {
    let mut v = Vec::<u8>::new();
    v.write_hist_1d_txt(&Hist1d::new(4, 0, 40).unwrap()).unwrap();
    assert!(v.is_empty());
    let h = Hist1d::with_counts(4, 0, 40, vec![0, 0, 7, 0]).unwrap();
    v.write_hist_1d_txt(&h).unwrap();
    assert_eq!(String::from_utf8(v).unwrap(), "25\t7\n");

    // rows are parted by an empty line, whether they have counts or not
    let mut v = Vec::<u8>::new();
    let h = Hist2d::with_counts(3, 0, 3, 2, 0, 2, vec![0, 1, 0, 0, 2, 0]).unwrap();
    v.write_hist_2d_txt(&h).unwrap();
    assert_eq!(String::from_utf8(v).unwrap(), "0\t1\t1\n\n\n2\t0\t2\n");
}

#[test]
fn values_with_fractions_are_read_in_ticks() {
    assert_eq!(parse_ticks(b"1.5", 1), Some(1));
    assert_eq!(parse_ticks(b"1.5", 10), Some(15));
    assert_eq!(parse_ticks(b"1.5", 0), Some(0));
    assert_eq!(parse_ticks(b"-0.5", 1), Some(-1));
    assert_eq!(parse_ticks(b"-0.5", 2), Some(-1));
    assert_eq!(parse_ticks(b"+.5", 2), Some(1));
    assert_eq!(parse_ticks(b"5.", 3), Some(15));
    assert_eq!(parse_ticks(b"-.25", 100), Some(-25));
    assert_eq!(parse_ticks(b"0.129", 100), Some(12));
    assert_eq!(parse_ticks(b"-0.121", 100), Some(-13));
    assert_eq!(parse_ticks(b"-0.120", 100), Some(-12));
    assert_eq!(parse_ticks(b"12", 7), Some(84));
    assert_eq!(parse_ticks(b"000000000000000000000000012.50", 2), Some(25));
    // every digit counts, however many there are
    assert_eq!(parse_ticks(b"0.3333333333333333333333333333333333", 3), Some(0));
    assert_eq!(parse_ticks(b"0.3333333333333333333333333333333334", 3), Some(1));
    assert_eq!(parse_ticks(b"-0.0000000000000000000000000000000001", 3), Some(-1));
    assert_eq!(parse_ticks(b"0.9999999999999999999999", u64::MAX), None);
    assert_eq!(parse_ticks(b"0.4999999999999999999999", u64::MAX), Some(i64::MAX));
    // the ends of the range
    assert_eq!(parse_ticks(b"9223372036854775807.9", 1), Some(i64::MAX));
    assert_eq!(parse_ticks(b"9223372036854775808", 1), None);
    assert_eq!(parse_ticks(b"-9223372036854775808.0", 1), Some(i64::MIN));
    assert_eq!(parse_ticks(b"-9223372036854775808.1", 1), None);
    assert_eq!(parse_ticks(b"4611686018427387903.5", 2), Some(i64::MAX));
    assert_eq!(parse_ticks(b"4611686018427387904", 2), None);
    assert_eq!(parse_ticks(b"99999999999999999999999999", 0), Some(0));
    // what is no number
    let none: [&[u8]; 10] =
        [b"", b".", b"-", b"+.", b"1.2.3", b"inf", b"0x10", b"--1", b"1,5", b" 1"];
    for text in none {
        assert_eq!(parse_ticks(text, 10), None);
    }
}

#[test]
fn values_with_exponents_are_read_in_ticks() {
    assert_eq!(parse_ticks(b"1e3", 10), Some(10000));
    assert_eq!(parse_ticks(b"1e1", 1), Some(10));
    assert_eq!(parse_ticks(b"1.5e1", 1), Some(15));
    assert_eq!(parse_ticks(b"1.5E+1", 2), Some(30));
    assert_eq!(parse_ticks(b"15e-1", 1), Some(1));
    assert_eq!(parse_ticks(b"-15e-1", 1), Some(-2));
    assert_eq!(parse_ticks(b"1234.5678e2", 1), Some(123456));
    assert_eq!(parse_ticks(b"1234.5678e-2", 100), Some(1234));
    assert_eq!(parse_ticks(b"1234.5678e-6", 1000), Some(1));
    assert_eq!(parse_ticks(b"-1234.5678e-6", 1000), Some(-2));
    assert_eq!(parse_ticks(b"0.000123e4", 10), Some(12));
    assert_eq!(parse_ticks(b"1e0005", 1), Some(100000));
    assert_eq!(parse_ticks(b"5.e1", 1), Some(50));
    assert_eq!(parse_ticks(b".5e1", 1), Some(5));
    assert_eq!(parse_ticks(b"1E-2", 1000), Some(10));
    assert_eq!(parse_ticks(b"123456789e-9", 1000000007), Some(123456789));
    assert_eq!(parse_ticks(b"+0.1e-1", 1000), Some(10));
    assert_eq!(parse_ticks(b"7e-0", 3), Some(21));
    // the ends of the range
    assert_eq!(parse_ticks(b"1e18", 9), Some(9000000000000000000));
    assert_eq!(parse_ticks(b"1e19", 1), None);
    assert_eq!(parse_ticks(b"-9.223372036854775808e18", 1), Some(i64::MIN));
    assert_eq!(parse_ticks(b"9.223372036854775808e18", 1), None);
    assert_eq!(parse_ticks(b"0e999", 5), Some(0));
    assert_eq!(parse_ticks(b"1e-999", u64::MAX), Some(0));
    assert_eq!(parse_ticks(b"-1e-999", u64::MAX), Some(-1));
    assert_eq!(parse_ticks(b"1e999", 0), Some(0));
    assert_eq!(parse_ticks(b"1e20", 0), Some(0));
    // what is no exponent
    assert_eq!(parse_ticks(b"1e1000", 1), None);
    assert_eq!(parse_ticks(b"1e-1000", 1), None);
    assert_eq!(parse_ticks(b"e5", 1), None);
    assert_eq!(parse_ticks(b"1e", 1), None);
    assert_eq!(parse_ticks(b"1e+", 1), None);
    assert_eq!(parse_ticks(b"1e5.0", 1), None);
    assert_eq!(parse_ticks(b".e1", 1), None);
    assert_eq!(parse_ticks(b"1e2e3", 1), None);

    let mut bytes = "1.5e0\t1\n25e-1 2\n0.3e1 4\n".as_bytes();
    let mut h = Hist1d::new(3, 0, 3).unwrap();
    assert_eq!(bytes.read_to_hist_1d_txt(&mut h), Ok(0));
    assert_eq!(h.counts(), &[0, 1, 6]);
}

#[test]
fn text_with_fractions_fills_the_bins() {
    let mut bytes = "1.5\t1\n-0.1 2\n2.999 4\n3.0 8\n0.05 16\nabc 1\n".as_bytes();
    let mut h = Hist1d::new(3, 0, 30).unwrap();
    assert_eq!(bytes.read_to_hist_1d_txt_scaled(&mut h, 10), Ok(1));
    assert_eq!(h.counts(), &[18, 1, 12]);

    // with one tick to the unit a value counts for the tick below it
    let mut bytes = "1.5\t1\n".as_bytes();
    let mut h = Hist1d::new(3, 0, 3).unwrap();
    assert_eq!(bytes.read_to_hist_1d_txt(&mut h), Ok(0));
    assert_eq!(h.counts(), &[0, 1, 0]);

    let mut bytes = "0.5 1.5 3\n3.25 0.75 4\n".as_bytes();
    let mut h = Hist2d::new(2, 0, 400, 2, 0, 200).unwrap();
    assert_eq!(bytes.read_to_hist_2d_txt_scaled(&mut h, 100), Ok(0));
    assert_eq!(h.counts(), &[0, 3, 4, 0]);
}

#[test]
fn error_messages() {
    let all = [
        DkError::Io,
        DkError::InvalidFormat,
        DkError::UnsupportedVersion,
        DkError::LookupNotFound,
        DkError::TypeMismatch,
        DkError::ConstraintViolation,
    ];
    for (i, a) in all.iter().enumerate() {
        for (j, b) in all.iter().enumerate() {
            assert_eq!(a.message() == b.message(), i == j);
        }
    }
}

#[test]
fn combine_adds_up_what_has_the_same_name() {
    let mut dk = Datakiste::new();
    let h = Hist1d::with_counts(2, 0, 20, vec![1, 2]).unwrap();
    dk.combine("h".to_string(), DkItem::from(&h)).unwrap();
    dk.combine("h".to_string(), DkItem::from(&h)).unwrap();
    // another binning: the middles 2, 7, 12, 17 fall into the bins 0, 0, 1, 1
    let fine = Hist1d::with_counts(4, 0, 20, vec![10, 20, 30, 40]).unwrap();
    dk.combine("h".to_string(), fine.into()).unwrap();
    assert_eq!(dk.get("h").unwrap().as_hist_1d().unwrap().counts(), &[32, 74]);
    dk.combine("pts".to_string(), Points2d::with_points(vec![(1, 2)]).into()).unwrap();
    dk.combine("pts".to_string(), Points2d::with_points(vec![(3, 4), (5, 6)]).into()).unwrap();
    assert_eq!(
        dk.get("pts").unwrap().as_points_2d().unwrap().points(),
        &[(1, 2), (3, 4), (5, 6)]
    );
    assert_eq!(dk.len(), 2);
    assert_eq!(dk.get_index(0).unwrap().0, "h");

    // what does not go together
    let before = dk.to_bytes();
    let r = dk.combine("h".to_string(), Points1d::new().into());
    assert_eq!(r, Err(DkError::TypeMismatch));
    let r = dk.combine("pts".to_string(), Hist1d::new(1, 0, 1).unwrap().into());
    assert_eq!(r, Err(DkError::TypeMismatch));
    let r = dk.combine("pts".to_string(), Points1d::new().into());
    assert_eq!(r, Err(DkError::TypeMismatch));
    let r = dk.combine("run".to_string(), Run { events: vec![] }.into());
    assert_eq!(r, Err(DkError::TypeMismatch));
    let full = Hist1d::with_counts(2, 0, 20, vec![u64::MAX - 100, 0]).unwrap();
    let r = dk.combine("h".to_string(), full.clone().into());
    assert_eq!(r, Err(DkError::ConstraintViolation));
    let r = dk.combine("new".to_string(), Hist1d::with_counts(2, 0, 2, vec![u64::MAX, 1]).unwrap().into());
    assert_eq!(r, Err(DkError::ConstraintViolation));
    assert_eq!(dk.to_bytes(), before);
    dk.combine("other".to_string(), full.into()).unwrap();
    assert_eq!(dk.len(), 3);
}

#[test]
fn items_are_integrated_by_their_type() {
    let h1: DkItem = Hist1d::with_counts(2, 0, 20, vec![1, 2]).unwrap().into();
    let h2: DkItem = Hist2d::with_counts(1, 0, 2, 2, 0, 20, vec![4, 8]).unwrap().into();
    let h3: DkItem = Hist3d::with_counts(1, 0, 1, 1, 0, 1, 1, 0, 1, vec![16]).unwrap().into();
    let pts: DkItem = Points1d::new().into();
    let above: Cut = Cut1d::from(Cut1dAbove { min: 10 }).into();
    let rect: Cut = Cut2d::from(Cut2dRect { x0: 0, y0: 0, x1: 2, y1: 10 }).into();
    assert_eq!(h1.integrate(&above), Ok(2));
    assert_eq!(h2.integrate(&rect), Ok(4));
    assert_eq!(h1.integrate(&rect), Err(DkError::TypeMismatch));
    assert_eq!(h2.integrate(&above), Err(DkError::TypeMismatch));
    assert_eq!(h3.integrate(&above), Err(DkError::TypeMismatch));
    assert_eq!(pts.integrate(&above), Err(DkError::TypeMismatch));
    assert_eq!(h1.total_counts(), Ok(3));
    assert_eq!(h2.total_counts(), Ok(12));
    assert_eq!(h3.total_counts(), Ok(16));
    assert_eq!(pts.total_counts(), Err(DkError::TypeMismatch));
    let full: DkItem = Hist1d::with_counts(2, 0, 20, vec![u64::MAX, 1]).unwrap().into();
    assert_eq!(full.total_counts(), Err(DkError::ConstraintViolation));
    assert_eq!(full.integrate(&above), Ok(1));
    let all: Cut = Cut1d::from(Cut1dAbove { min: -1 }).into();
    assert_eq!(full.integrate(&all), Err(DkError::ConstraintViolation));
}

fn cuts() -> Vec<DkItem<'static>> {
    let between: Cut1d = Cut1dBetween { min: -3, max: 7 }.into();
    let poly: Cut2d = Cut2dPoly { verts: vec![(0, 0), (4, 0), (0, 4)] }.into();
    vec![
        Cut1d::from(Cut1dAbove { min: i64::MIN }).into(),
        Cut1d::from(Cut1dBelow { max: 9 }).into(),
        Cut1d::Not(Box::new(between)).into(),
        Cut2d::from(Cut2dRect { x0: 1, y0: 2, x1: 3, y1: 4 }).into(),
        Cut2d::from(Cut2dCirc { x0: 1, y0: 2, r: 3 }).into(),
        Cut2d::from(Cut2dEllipse { x0: 1, y0: 2, rx: 3, ry: 4, ux: 5, uy: -6 }).into(),
        Cut2d::from(Cut2dPoly { verts: vec![] }).into(),
        Cut2d::Not(Box::new(poly)).into(),
    ]
}

#[test]
fn cuts_are_items_too() {
    let mut dk = Datakiste::new();
    for (i, c) in cuts().into_iter().enumerate() {
        dk.insert(format!("cut{}", i), c);
    }
    let data = dk.to_bytes();
    let back = Datakiste::from_bytes(&data).unwrap();
    assert_eq!(back.len(), 8);
    assert_eq!(back.to_bytes(), data);
    let kinds: Vec<DkType> = (0..8).map(|i| back.get_index(i).unwrap().1.dk_type()).collect();
    assert_eq!(&kinds[..3], &[DkType::Cut1d; 3]);
    assert_eq!(&kinds[3..], &[DkType::Cut2d; 5]);
    let c = back.get("cut2").unwrap().as_cut_1d().unwrap();
    assert!(matches!(c, Cut1d::Not(_)));
    assert!(!c.contains(0));
    assert!(c.contains(7));
    let c = back.get("cut7").unwrap().as_cut_2d().unwrap();
    assert!(!c.contains(1, 1));
    assert!(c.contains(4, 4));
    assert!(back.get("cut5").unwrap().as_cut_2d().is_some());
    assert!(back.get("cut0").unwrap().as_cut_2d().is_none());
    assert!(back.get("cut3").unwrap().as_hist_1d().is_none());
    // the same values, laid out by another encoder
    let between = written(&Cut1d::from(Cut1dBetween { min: -3, max: 7 }));
    assert_eq!(between, bincode::serialize(&(2u32, -3i64, 7i64)).unwrap());
    let not = written(&Cut2d::Not(Box::new(Cut2dPoly { verts: vec![(1, 2)] }.into())));
    assert_eq!(not, bincode::serialize(&(4u32, 3u32, vec![(1i64, 2i64)])).unwrap());
    let ellipse = written(&Cut2d::from(Cut2dEllipse { x0: 1, y0: 2, rx: 3, ry: 4, ux: 5, uy: -6 }));
    assert_eq!(ellipse, bincode::serialize(&(2u32, 1i64, 2i64, 3i64, 4i64, 5i64, -6i64)).unwrap());
    // cuts are not combined, and have no counts
    let mut dk = Datakiste::new();
    let r = dk.combine("c".to_string(), Cut1d::from(Cut1dAbove { min: 0 }).into());
    assert_eq!(r, Err(DkError::TypeMismatch));
    assert_eq!(cuts()[0].total_counts(), Err(DkError::TypeMismatch));
}

#[test]
fn cuts_within_cuts_are_read_without_end() {
    // a long row of complements, and then nothing
    let mut data = HEADER.to_vec();
    data.extend_from_slice(&1u64.to_le_bytes());
    data.extend_from_slice(&1u64.to_le_bytes());
    data.push(b'c');
    data.extend_from_slice(&15u32.to_le_bytes());
    let start = data.len();
    for _ in 0..300_000 {
        data.extend_from_slice(&3u32.to_le_bytes());
    }
    assert_eq!(Datakiste::from_bytes(&data).err(), Some(DkError::InvalidFormat));
    // the same row with a cut at its end
    data.extend_from_slice(&0u32.to_le_bytes());
    data.extend_from_slice(&5i64.to_le_bytes());
    // complements of complements are folded: none is left of an even number
    let dk = Datakiste::from_bytes(&data).unwrap();
    let c = dk.get("c").unwrap().as_cut_1d().unwrap();
    assert!(matches!(c, Cut1d::Cut1dAbove(Cut1dAbove { min: 5 })));
    // and one of an odd number
    let odd = Datakiste::from_bytes(&[&data[..start], &data[start + 4..]].concat()).unwrap();
    match odd.get("c").unwrap().as_cut_1d().unwrap() {
        Cut1d::Not(inner) => assert!(matches!(**inner, Cut1d::Cut1dAbove(Cut1dAbove { min: 5 }))),
        _ => panic!("no complement"),
    }
    let twice = Cut2d::Not(Box::new(Cut2d::Not(Box::new(Cut2dCirc { x0: 0, y0: 0, r: 2 }.into()))));
    let back: Cut2d = read(&written(&twice));
    assert!(matches!(back, Cut2d::Cut2dCirc(_)));
    assert!(back.contains(1, 1) && twice.contains(1, 1));
    // kinds that are none
    data[start] = 4;
    assert_eq!(Datakiste::from_bytes(&data).err(), Some(DkError::InvalidFormat));
    data[start - 4] = 16;
    data[start] = 5;
    assert_eq!(Datakiste::from_bytes(&data).err(), Some(DkError::InvalidFormat));
    // a polygon with more corners than the input holds
    let mut data = HEADER.to_vec();
    data.extend_from_slice(&1u64.to_le_bytes());
    data.extend_from_slice(&1u64.to_le_bytes());
    data.push(b'c');
    data.extend_from_slice(&16u32.to_le_bytes());
    data.extend_from_slice(&3u32.to_le_bytes());
    data.extend_from_slice(&(1u64 << 60).to_le_bytes());
    data.extend_from_slice(&[0; 64]);
    assert_eq!(Datakiste::from_bytes(&data).err(), Some(DkError::InvalidFormat));
}
