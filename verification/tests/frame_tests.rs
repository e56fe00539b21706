use af_xdp::frame::{check_names_frame, FrameDesc, FramePool, ResourceError};

#[test]
fn frame_desc_starts_without_valid_bytes() {
    assert_eq!(FrameDesc::new(4096), FrameDesc { addr: 4096, len: 0, options: 0 });
    assert_eq!(FrameDesc::default(), FrameDesc { addr: 0, len: 0, options: 0 });
}

#[test]
fn allocate_rejects_empty_geometry() {
    assert!(matches!(FramePool::allocate(0, 16), Err(ResourceError::UnsupportedSize)));
    assert!(matches!(FramePool::allocate(2048, 0), Err(ResourceError::UnsupportedSize)));
    assert!(matches!(FramePool::allocate(0, 0), Err(ResourceError::UnsupportedSize)));
    assert!(!FramePool::size_supported(0, 1));
    assert!(FramePool::size_supported(1, 1));
    assert!(FramePool::size_supported(2048, 16));
}

#[test]
fn reservation_that_failed_gives_out_of_memory() {
    let r = FramePool::from_reservation(2048, 4, Vec::new(), false);
    assert!(matches!(r, Err(ResourceError::OutOfMemory)));
    let r = FramePool::from_reservation(0, 4, Vec::new(), false);
    assert!(matches!(r, Err(ResourceError::UnsupportedSize)));
    let pool = FramePool::from_reservation(2048, 4, Vec::new(), true).unwrap();
    assert_eq!(pool.len(), 8192);
}

#[test]
fn allocated_pool_is_zeroed_and_sized() {
    let pool = FramePool::allocate(2048, 16).unwrap();
    assert_eq!(pool.frame_size(), 2048);
    assert_eq!(pool.frame_count(), 16);
    assert_eq!(pool.len(), 2048 * 16);
    for d in pool.descriptors() {
        let whole = FrameDesc { addr: d.addr, len: 2048, options: 0 };
        assert!(pool.data(&whole).iter().all(|b| *b == 0));
    }
}

#[test]
fn descriptors_never_overlap() {
    for (frame_size, frame_count) in [(2048u32, 16u32), (1, 5), (4096, 3), (3000, 7), (64, 1)] {
        let pool = FramePool::allocate(frame_size, frame_count).unwrap();
        let descs = pool.descriptors();
        assert_eq!(descs.len(), frame_count as usize);
        for (i, d) in descs.iter().enumerate() {
            assert_eq!(d.addr, i * frame_size as usize);
            assert_eq!(d.len, 0);
            assert_eq!(d.options, 0);
            assert!(d.addr + frame_size as usize <= pool.len());
            assert!(pool.contains(d));
        }
        for i in 0..descs.len() {
            for j in 0..descs.len() {
                if i != j {
                    let (a, b) = (descs[i].addr, descs[j].addr);
                    let size = frame_size as usize;
                    assert!(a + size <= b || b + size <= a);
                }
            }
        }
    }
}

#[test]
fn contains_tells_frames_from_other_addresses() {
    let pool = FramePool::allocate(2048, 4).unwrap();
    assert!(pool.contains(&FrameDesc { addr: 0, len: 0, options: 0 }));
    assert!(pool.contains(&FrameDesc { addr: 6144, len: 2048, options: 5 }));
    assert!(!pool.contains(&FrameDesc { addr: 6144, len: 2049, options: 0 }));
    assert!(!pool.contains(&FrameDesc { addr: 8192, len: 0, options: 0 }));
    assert!(!pool.contains(&FrameDesc { addr: 100, len: 0, options: 0 }));
    assert!(!pool.contains(&FrameDesc { addr: usize::MAX, len: 0, options: 0 }));
    let d = FrameDesc { addr: 2048, len: 1, options: 0 };
    assert!(check_names_frame(&d, 2048, 2));
    assert!(!check_names_frame(&d, 2048, 1));
    assert!(!check_names_frame(&d, 0, 2));
}

#[test]
fn frame_view_writes_one_frame_only() {
    let mut pool = FramePool::allocate(2048, 4).unwrap();
    let target = FrameDesc { addr: 4096, len: 3, options: 0 };
    {
        let frame = pool.frame_view(&target);
        assert_eq!(frame.len(), 2048);
        frame[0] = 10;
        frame[1] = 20;
        frame[2047] = 30;
    }
    assert_eq!(pool.data(&target), &[10, 20, 0]);
    let whole = FrameDesc { addr: 4096, len: 2048, options: 0 };
    assert_eq!(pool.data(&whole)[2047], 30);
    for addr in [0usize, 2048, 6144] {
        let other = FrameDesc { addr, len: 2048, options: 0 };
        assert!(pool.data(&other).iter().all(|b| *b == 0));
    }
    assert_eq!(pool.len(), 8192);
}

#[test]
fn data_of_no_bytes_is_empty() {
    let pool = FramePool::allocate(2048, 2).unwrap();
    assert_eq!(pool.data(&FrameDesc::new(2048)).len(), 0);
}
