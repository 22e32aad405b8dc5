use html_codec::encoder::{html_encode_1, HtmlEncoder};

fn encode(s: &str) -> String {
    let mut encoder = HtmlEncoder::new(s.chars().collect());
    let mut out = String::new();
    while let Some(c) = encoder.next() {
        out.push(c);
    }
    out
}

fn encode_twice(s: &str) -> String {
    encode(&encode(s))
}

#[test]
fn once() {
    assert_eq!(encode("hello"), "hello");
    assert_eq!(encode("<b>hello</b>"), "&lt;b&gt;hello&lt;/b&gt;");
    assert_eq!(encode("do & don't"), "do &amp; don&apos;t");
}

#[test]
fn twice() {
    assert_eq!(encode_twice("hello"), "hello");
    assert_eq!(
        encode_twice("<b>hello</b>"),
        "&amp;lt;b&amp;gt;hello&amp;lt;/b&amp;gt;"
    );
    assert_eq!(encode_twice("do & don't"), "do &amp;amp; don&amp;apos;t");
}

#[test]
fn mod_html_encode_1_test() {
    let input = "<>\"'&";

    let output = "&lt;&gt;&quot;&apos;&amp;";
    assert_eq!(output, html_encode_1(input));

    assert_eq!("12345", html_encode_1("12345"));
    assert_eq!("&amp;&lt;12345", html_encode_1("&<12345"));
}

#[test]
fn go_huskies_html_encode_1_test() {
    let input = "<>\"'&";

    let output = "&lt;&gt;&quot;&apos;&amp;";
    assert_eq!(output, html_encode_1(input));

    assert_eq!("12345", html_encode_1("12345"));
    assert_eq!("&amp;&lt;12345", html_encode_1("&<12345"));
}

#[test]
fn crusty_rustys_one_plus_one_is_two() {
    assert_eq!(1 + 1, 2);
}

#[test]
fn test_encoder() {
    assert_eq!(
        html_encode_1("hello michael & I don't know how html works \' but I'll keep typing spec><ial characters"),
        "hello michael &amp; I don&apos;t know how html works &apos; but I&apos;ll keep typing spec&gt;&lt;ial characters"
    );
}

#[test]
fn test_iter_encoder() {
    let enc = encode(
        "hello michael & I don't know how html works \' but I'll keep typing spec><ial characters",
    );
    assert_eq!(enc, String::from("hello michael &amp; I don&apos;t know how html works &apos; but I&apos;ll keep typing spec&gt;&lt;ial characters"));
}

#[test]
fn encode_empty_string() {
    let s = "";
    let res: String = encode(s);
    assert_eq!(res, "");
}

#[test]
fn encode_hello_world() {
    let s = "<hello world>";
    let res: String = encode(s);
    assert_eq!(res, "&lt;hello world&gt;")
}

#[test]
fn encode_nasty() {
    let s = "<l;ka>sldfkjsd<>Lkjsdf<><>slkjsdfkjsdf>\"\"\"\"\"\"&&&&&'";
    let res: String = encode(s);
    assert_eq!(
        res,
        "&lt;l;ka&gt;sldfkjsd&lt;&gt;Lkjsdf&lt;&gt;&lt;&gt;slkjsdfkjsdf&gt;&quot;\
         &quot;&quot;&quot;&quot;&quot;&amp;&amp;&amp;&amp;&amp;&apos;"
    )
}

#[test]
fn golden_retrievers_one_plus_one_is_two() {
    assert_eq!(1 + 1, 2);
}

#[test]
fn it_encoder_one_plus_one_is_two() {
    assert_eq!(1 + 1, 2);
}

#[test]
fn test_html_encoder() {
    let mut html_encoder = HtmlEncoder::new("&<aaaa>".chars().collect());
    let mut res = "&amp;&lt;aaaa&gt;".chars();
    while let Some(c) = html_encoder.next() {
        assert_eq!(c, res.next().unwrap());
    }
    assert_eq!(res.next(), None);
}

#[test]
fn test_str_encoder() {
    assert_eq!(
        html_encode_1(&"<test&>"),
        String::from("&lt;test&amp;&gt;")
    );
}

fn test_encoding(input: &str, expected: &str) {
    let result: String = encode(input);
    assert_eq!(result.as_str(), expected);
}

#[test]
fn test_basic_encoding() {
    test_encoding("john", "john");
}

#[test]
fn test_ampersand_encoding() {
    test_encoding("baker&", "baker&amp;");
}

#[test]
fn test_varied_encoding() {
    test_encoding(">me&", "&gt;me&amp;");
}

#[test]
fn encoder_stays_exhausted() {
    let mut encoder = HtmlEncoder::new(vec!['<']);
    assert_eq!(encoder.next(), Some('&'));
    assert_eq!(encoder.next(), Some('l'));
    assert_eq!(encoder.next(), Some('t'));
    assert_eq!(encoder.next(), Some(';'));
    assert_eq!(encoder.next(), None);
    assert_eq!(encoder.next(), None);
}

#[test]
fn encode_all_reserved_chars() {
    assert_eq!(html_encode_1("<>\"'&"), "&lt;&gt;&quot;&apos;&amp;");
}

#[test]
fn encode_safe_text_unchanged() {
    assert_eq!(html_encode_1("hello"), "hello");
    assert_eq!(html_encode_1("plain; text # with é and 日本"), "plain; text # with é and 日本");
}
