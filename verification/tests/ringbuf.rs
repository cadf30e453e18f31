use ringbuf::BufError;
use ringbuf::Cursors;
use ringbuf::Error;
use ringbuf::RingBuf;
use ringbuf::PAGE_SIZE;

#[test]
fn simple_buf() {
    let mut buf = RingBuf::new(1).expect("Creation should work.");
    buf.write(b"This is my string. There are many like it, but this one is mine.")
        .expect("Not writing too far, should be okay.");
    let sub_str = buf
        .read(b"This is my string.".len())
        .expect("Taking what is available.");
    assert_eq!(sub_str.as_slice(), b"This is my string." as &[u8]);
    assert_eq!(
        buf.contents_size(),
        b" There are many like it, but this one is mine.".len()
    );
    buf.write(b" I love my substring.")
        .expect("Continuing to write");
}

#[test]
fn page_wrap() {
    let mut buf = RingBuf::new(1).expect("Creation should work.");
    buf.write(&[1; 4096]).expect("Should fit in the buffer.");
    let _lotsa_ones = buf.read(2048).expect("Should be available.");
    assert_eq!(buf.head(), 2048);
    assert_eq!(buf.tail(), 0);
    buf.write(&[2; 4096])
        .expect_err("We can't fit more than one page in this buffer.");
    buf.write(&[2; 2048]).expect(
        "Failure to write shouldn't affect our buffer. Also, there should be enough space.",
    );
    let _more_ones = buf.read(1024).expect("Business as usual");
    let wrapping = buf.read(2048).expect("I trust my MMU.");
    let should_have_read = {
        let mut scratch = [0u8; 2048];
        let (before_page_end, after_page_end) = scratch.split_at_mut(1024);
        before_page_end.copy_from_slice(&[1; 1024]);
        after_page_end.copy_from_slice(&[2; 1024]);
        scratch
    };
    assert_eq!(wrapping.as_slice(), should_have_read.as_slice());
}

#[test]
fn exact_fit_write_fills_then_full() {
    let mut buf = RingBuf::new(1).expect("creation");
    buf.write(&[9; 1000]).expect("first chunk fits");
    let free = buf.capacity() - buf.contents_size();
    assert_eq!(free, 3096);
    buf.write(&vec![7u8; free]).expect("exact fit must succeed");
    assert_eq!(buf.contents_size(), buf.capacity());
    assert_eq!(
        buf.write(&[1]),
        Err(Error::Ours(BufError::Full)),
        "one further byte must be refused"
    );
    assert_eq!(buf.contents_size(), buf.capacity());
}

#[test]
fn failed_write_and_read_change_nothing() {
    let mut buf = RingBuf::new(1).expect("creation");
    buf.write(b"abc").expect("fits");
    let head = buf.head();
    let tail = buf.tail();
    let size = buf.contents_size();
    assert_eq!(buf.write(&[0; 5000]), Err(Error::Ours(BufError::Full)));
    assert_eq!((buf.head(), buf.tail(), buf.contents_size()), (head, tail, size));
    assert_eq!(buf.read(4), Err(Error::Ours(BufError::Underflow)));
    assert_eq!((buf.head(), buf.tail(), buf.contents_size()), (head, tail, size));
    assert_eq!(buf.read(3).expect("still readable").as_slice(), b"abc" as &[u8]);
}

#[test]
fn round_trip_across_boundary() {
    let mut buf = RingBuf::new(1).expect("creation");
    buf.write(&[0; 3000]).expect("filler");
    let gone = buf.read(3000).expect("drain filler");
    assert_eq!(gone.len(), 3000);
    let mut payload = Vec::new();
    for i in 0..2000u32 {
        payload.push((i % 251) as u8);
    }
    buf.write(&payload).expect("wraps past the boundary");
    let back = buf.read(2000).expect("read it back");
    assert_eq!(back, payload);
    assert_eq!(buf.contents_size(), 0);
}

#[test]
fn contents_size_tracks_writes_minus_reads() {
    let mut buf = RingBuf::new(2).expect("creation");
    assert_eq!(buf.capacity(), 2 * PAGE_SIZE);
    let mut written = 0usize;
    let mut consumed = 0usize;
    for round in 0..20usize {
        let n = 100 + round * 31;
        buf.write(&vec![round as u8; n]).expect("fits");
        written += n;
        let m = 40 + round * 17;
        buf.read(m).expect("resident");
        consumed += m;
        assert_eq!(buf.contents_size(), written - consumed);
        assert!(buf.contents_size() <= buf.capacity());
    }
}

#[test]
fn typed_round_trip() {
    let mut buf = RingBuf::new(1).expect("creation");
    let value: u64 = 0xdead_beef_0123_4567;
    buf.write_typed(value).expect("eight bytes fit");
    assert_eq!(buf.contents_size(), 8);
    assert_eq!(buf.read_typed().expect("eight bytes resident"), value);
    assert_eq!(buf.contents_size(), 0);
}

#[test]
fn typed_write_is_little_endian() {
    let mut buf = RingBuf::new(1).expect("creation");
    buf.write_typed(0x0807_0605_0403_0201u64).expect("fits");
    let image = buf.read(8).expect("resident");
    assert_eq!(image.as_slice(), &[1u8, 2, 3, 4, 5, 6, 7, 8] as &[u8]);
}

#[test]
fn typed_read_underflow_changes_nothing() {
    let mut buf = RingBuf::new(1).expect("creation");
    buf.write(b"short").expect("fits");
    assert_eq!(buf.read_typed(), Err(Error::Ours(BufError::Underflow)));
    assert_eq!(buf.contents_size(), 5);
}

#[test]
fn cursors_grant_offsets_and_wrap() {
    let mut cur = Cursors::new(1);
    assert!(cur.is_wf());
    assert_eq!(cur.grant_write(4096), Ok(0));
    assert_eq!((cur.head, cur.tail, cur.contents_size), (0, 0, 4096));
    assert_eq!(cur.grant_read(2048), Ok(0));
    assert_eq!((cur.head, cur.tail, cur.contents_size), (2048, 0, 2048));
    assert_eq!(cur.grant_write(4096), Err(Error::Ours(BufError::Full)));
    assert_eq!(cur.grant_write(2048), Ok(0));
    assert_eq!(cur.tail, 2048);
    assert_eq!(cur.grant_read(4000), Ok(2048));
    assert_eq!(cur.head, (2048 + 4000) % 4096);
    assert!(cur.is_wf());
}

#[test]
fn error_conversion_and_messages() {
    assert_eq!(Error::from(BufError::Full), Error::Ours(BufError::Full));
    assert_eq!(
        Error::from(BufError::Underflow),
        Error::Ours(BufError::Underflow)
    );
    assert_eq!(BufError::Full.message(), "Not enough buffer space!");
    assert_eq!(BufError::Underflow.message(), "Not enough bytes in the buffer!");
    assert_eq!(Error::Platform(12).message(), "A platform call failed!");
    assert_eq!(Error::Ours(BufError::Full).message(), "Not enough buffer space!");
}

#[test]
fn alias_demos() {
    ringbuf::aliasing_enforced();
    let mut a = 0usize;
    let mut b = 0usize;
    assert_eq!(ringbuf::alias_analyzed(&mut a, &mut b), 15);
    assert_eq!((a, b), (15, 16));
}
