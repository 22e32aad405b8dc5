use html_codec::fix_buf::FixBuf;

#[test]
fn room_for_four_chars() {
    let mut buf1: FixBuf<4> = FixBuf::empty();
    assert_eq!(buf1.pop_front(), None);

    let foob: Vec<char> = "foob".chars().collect();
    let mut buf2: FixBuf<4> = FixBuf::new(&foob);
    assert_eq!(buf2.pop_front(), Some('f'));
    assert_eq!(buf2.pop_front(), Some('o'));
    assert_eq!(buf2.pop_front(), Some('o'));
    assert_eq!(buf2.pop_front(), Some('b'));
    assert_eq!(buf2.pop_front(), None);

    let fo: Vec<char> = "fo".chars().collect();
    let mut buf3: FixBuf<4> = FixBuf::new(&fo);
    assert_eq!(buf3.pop_front(), Some('f'));
    assert_eq!(buf3.pop_front(), Some('o'));
    assert_eq!(buf3.pop_front(), None);
}

#[test]
fn fix_buf_len_and_slice() {
    let mut buf: FixBuf<6> = FixBuf::new(&['a', 'b', 'c']);
    assert_eq!(buf.len(), 3);
    assert!(!buf.is_empty());
    assert_eq!(buf.as_slice(), &['a', 'b', 'c']);
    assert_eq!(buf.pop_front(), Some('a'));
    assert_eq!(buf.len(), 2);
    assert_eq!(buf.as_slice(), &['b', 'c']);
}

#[test]
fn fix_buf_push_after_full_back() {
    let mut buf: FixBuf<4> = FixBuf::new(&['w', 'x', 'y', 'z']);
    assert_eq!(buf.pop_front(), Some('w'));
    assert_eq!(buf.pop_front(), Some('x'));
    buf.push_back('!');
    assert_eq!(buf.as_slice(), &['y', 'z', '!']);
    buf.push_back('?');
    assert_eq!(buf.len(), 4);
    assert_eq!(buf.pop_front(), Some('y'));
    assert_eq!(buf.pop_front(), Some('z'));
    assert_eq!(buf.pop_front(), Some('!'));
    assert_eq!(buf.pop_front(), Some('?'));
    assert_eq!(buf.pop_front(), None);
    assert!(buf.is_empty());
}

#[test]
fn fix_buf_empty_and_full() {
    let mut buf: FixBuf<6> = FixBuf::empty();
    assert!(buf.is_empty());
    assert_eq!(buf.len(), 0);
    for c in "&quot;".chars() {
        buf.push_back(c);
    }
    assert_eq!(buf.len(), 6);
    assert_eq!(buf.as_slice(), &['&', 'q', 'u', 'o', 't', ';']);
}
