use html_codec::decoder::html_decode_1;
use html_codec::encoder::html_encode_1;
use html_codec::entity::{char_for, escape_name_for};

#[test]
fn round_trip_samples() {
    let samples = [
        "",
        "<>\"'&",
        "hello",
        "a & b < c > d \" e ' f",
        "&amp; already escaped &lt;",
        ";;&&;;",
        "日本語 & ünïcödé",
    ];
    for s in samples {
        assert_eq!(html_decode_1(&html_encode_1(s)), Ok(String::from(s)));
    }
}

#[test]
fn table_lookups() {
    assert_eq!(escape_name_for('<'), Some(&['l', 't', ';'][..]));
    assert_eq!(escape_name_for('"'), Some(&['q', 'u', 'o', 't', ';'][..]));
    assert_eq!(escape_name_for('a'), None);
    assert_eq!(char_for(&['a', 'p', 'o', 's', ';']), Some('\''));
    assert_eq!(char_for(&['a', 'm', 'p', ';']), Some('&'));
    assert_eq!(char_for(&['a', 'm', 'p']), None);
    assert_eq!(char_for(&['r', 't', ';']), None);
}
