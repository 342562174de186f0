use adui_boffer::iter::{InplaceIter, OutOfPlaceIter};

#[test]
fn iter_inplace() {
    let mut data = vec![2f32; 8];

    let mut inplace_iter = InplaceIter::new(&mut data);
    while let Some((src, dst)) = inplace_iter.next() {
        *dst += src;
    }

    assert_eq!(&data.as_slice(), &vec![4f32; 8].as_slice());
}

#[test]
fn iter_outofplace() {
    let mut dst_data = vec![2f32; 8];
    let src_data = dst_data.clone();

    let mut inplace_iter = OutOfPlaceIter::new(&src_data, &mut dst_data);
    while let Some((src, dst)) = inplace_iter.next() {
        *dst += src;
    }

    assert_eq!(&dst_data.as_slice(), &vec![4f32; 8].as_slice());
}

#[test]
fn inplace_visits_each_index_once_in_order() {
    let mut data: Vec<u32> = vec![10, 20, 30, 40, 50];
    let mut seen = Vec::new();
    let mut step: u32 = 0;
    let mut it = InplaceIter::new(&mut data);
    while let Some((v, d)) = it.next() {
        seen.push(v);
        *d = step;
        step += 1;
    }
    assert_eq!(step, 5);
    assert_eq!(seen, vec![10, 20, 30, 40, 50]);
    assert_eq!(data, vec![0, 1, 2, 3, 4]);
}

#[test]
fn inplace_empty_region_yields_nothing() {
    let mut data: Vec<u8> = Vec::new();
    let mut it = InplaceIter::new(&mut data);
    assert!(it.next().is_none());
    assert!(it.next().is_none());
}

#[test]
fn inplace_value_is_snapshot_before_write() {
    let mut data: Vec<i32> = vec![3, -7, 11];
    let mut it = InplaceIter::new(&mut data);
    while let Some((v, d)) = it.next() {
        assert_eq!(v, *d);
        *d = 0;
        assert_eq!(v != 0, true);
    }
    assert_eq!(data, vec![0, 0, 0]);
}

#[test]
fn outofplace_stops_at_shorter_source() {
    let src: Vec<u16> = vec![1, 2, 3, 4, 5];
    let mut dst: Vec<u16> = vec![9; 8];
    let mut steps: usize = 0;
    let mut it = OutOfPlaceIter::new(&src, &mut dst);
    while let Some((v, d)) = it.next() {
        *d = v * 100;
        steps += 1;
    }
    assert_eq!(steps, 5);
    assert_eq!(dst, vec![100, 200, 300, 400, 500, 9, 9, 9]);
    assert_eq!(src, vec![1, 2, 3, 4, 5]);
}

#[test]
fn outofplace_stops_at_shorter_destination() {
    let src: Vec<u16> = vec![1, 2, 3, 4, 5];
    let mut dst: Vec<u16> = vec![0; 2];
    let mut seen = Vec::new();
    let mut it = OutOfPlaceIter::new(&src, &mut dst);
    while let Some((v, d)) = it.next() {
        seen.push(v);
        *d = v + 1;
    }
    assert_eq!(seen, vec![1, 2]);
    assert_eq!(dst, vec![2, 3]);
}

#[test]
fn outofplace_writes_never_reach_the_source() {
    let src: Vec<i64> = vec![5, 6, 7, 8];
    let mut dst: Vec<i64> = vec![0; 4];
    let mut seen = Vec::new();
    let mut it = OutOfPlaceIter::new(&src, &mut dst);
    while let Some((v, d)) = it.next() {
        seen.push(v);
        *d = -1000;
    }
    assert_eq!(seen, vec![5, 6, 7, 8]);
    assert_eq!(src, vec![5, 6, 7, 8]);
    assert_eq!(dst, vec![-1000; 4]);
}

#[test]
fn outofplace_dst_slot_holds_its_old_content() {
    let src: Vec<u8> = vec![1, 1, 1];
    let mut dst: Vec<u8> = vec![7, 8, 9];
    let mut it = OutOfPlaceIter::new(&src, &mut dst);
    let mut old = Vec::new();
    while let Some((_, d)) = it.next() {
        old.push(*d);
        *d = 0;
    }
    assert_eq!(old, vec![7, 8, 9]);
    assert_eq!(dst, vec![0, 0, 0]);
}
