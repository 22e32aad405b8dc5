//! Properties that relate the encoder, the decoder and the entity table.
use vstd::prelude::*;
use crate::entity::{spec_escape_name, spec_char_for, is_reserved, MAX_ESCAPE_LEN};
use crate::encoder::{escaped, spec_encode};
use crate::decoder::{
    collect, decode_from, lemma_collect_extend, literal, spec_decode, spec_decode_all, HtmlError, Outcome,
    Policy,
};

verus! {

/// Each reserved char's name leads back to the char, ends in `;`, holds no
/// other `;`, and with its `&` is no longer than the longest escape.
pub proof fn lemma_table_inverse(c: char)
    requires
        is_reserved(c),
    ensures
        ({
            let name = spec_escape_name(c)->0;
            &&& spec_char_for(name) == Some(c)
            &&& 2 <= name.len() && name.len() + 1 <= MAX_ESCAPE_LEN
            &&& name.last() == ';'
            &&& forall|i: int| 0 <= i < name.len() - 1 ==> name[i] != ';'
        }),
{
}

/// Reading chars other than `;` into an entity that stays within the longest
/// escape just extends the entity text.
pub proof fn lemma_read_chars(policy: Policy, acc: Seq<char>, w: Seq<char>, t: Seq<char>)
    requires
        acc.len() >= 1,
        acc.len() + w.len() <= MAX_ESCAPE_LEN,
        forall|i: int| 0 <= i < w.len() ==> w[i] != ';',
    ensures
        decode_from(policy, acc, w + t) == decode_from(policy, acc + w, t),
    decreases w.len(),
{
    if w.len() == 0 {
        assert(w + t =~= t);
        assert(acc + w =~= acc);
    } else {
        let s = w + t;
        assert(s[0] == w[0]);
        assert(s.drop_first() =~= w.drop_first() + t);
        lemma_read_chars(policy, acc.push(w[0]), w.drop_first(), t);
        assert(acc.push(w[0]) + w.drop_first() =~= acc + w);
    }
}

/// Decoding the escape of one char, whatever follows, yields that char first.
pub proof fn lemma_decode_escaped(policy: Policy, c: char, t: Seq<char>)
    ensures
        decode_from(policy, Seq::empty(), escaped(c) + t) == seq![Ok::<char, (HtmlError, Seq<char>)>(
            c,
        )] + decode_from(policy, Seq::empty(), t),
{
    let s = escaped(c) + t;
    if is_reserved(c) {
        let name = spec_escape_name(c)->0;
        lemma_table_inverse(c);
        let body = name.drop_last();
        assert(s[0] == '&');
        assert(s.drop_first() =~= body + (seq![';'] + t));
        lemma_read_chars(policy, seq!['&'], body, seq![';'] + t);
        let acc = seq!['&'] + body;
        let u = seq![';'] + t;
        assert(u[0] == ';');
        assert(u.drop_first() =~= t);
        assert(acc.drop_first().push(';') =~= name);
    } else {
        assert(s[0] == c);
        assert(s.drop_first() =~= t);
    }
}

/// Decoding an encoding yields every char of the original, in order.
pub proof fn lemma_decode_encode(policy: Policy, s: Seq<char>)
    ensures
        spec_decode(policy, spec_encode(s)) == literal(s),
    decreases s.len(),
{
    if s.len() == 0 {
        assert(spec_encode(s) =~= Seq::<char>::empty());
        assert(literal(s) =~= Seq::empty());
    } else {
        lemma_decode_encode(policy, s.drop_first());
        lemma_decode_escaped(policy, s[0], spec_encode(s.drop_first()));
        assert(literal(s) =~= seq![
            Ok::<char, (HtmlError, Seq<char>)>(s[0]),
        ] + literal(s.drop_first()));
    }
}

/// Outcomes that are all chars collect to those chars.
pub proof fn lemma_collect_oks(s: Seq<char>)
    ensures
        collect(literal(s)) == Ok::<Seq<char>, (HtmlError, Seq<char>)>(s),
    decreases s.len(),
{
    let m = literal(s);
    if s.len() == 0 {
        assert(s =~= Seq::<char>::empty());
    } else {
        lemma_collect_oks(s.drop_last());
        assert(m.last() == Ok::<char, (HtmlError, Seq<char>)>(s.last()));
        assert(m.drop_last() =~= literal(s.drop_last()));
        assert(s.drop_last().push(s.last()) =~= s);
    }
}

/// Round trip: decoding the encoding of any text gives the text back.
pub proof fn lemma_round_trip(s: Seq<char>)
    ensures
        spec_decode_all(spec_encode(s)) == Ok::<Seq<char>, (HtmlError, Seq<char>)>(s),
{
    lemma_decode_encode(Policy::Strict, s);
    lemma_collect_oks(s);
}

/// Text without reserved chars encodes to itself.
pub proof fn lemma_encode_safe(s: Seq<char>)
    requires
        forall|i: int| 0 <= i < s.len() ==> !is_reserved(#[trigger] s[i]),
    ensures
        spec_encode(s) == s,
    decreases s.len(),
{
    if s.len() > 0 {
        lemma_encode_safe(s.drop_first());
        assert(!is_reserved(s[0]));
        assert(seq![s[0]] + s.drop_first() =~= s);
    }
}

/// `n` ampersands in a row, `1 <= n <= 6`, with no `;` after them, decode
/// (strictly) to exactly one outcome: an unterminated-entity error over the run.
pub proof fn lemma_ampersand_run(n: nat)
    requires
        1 <= n <= MAX_ESCAPE_LEN,
    ensures
        spec_decode(Policy::Strict, Seq::new(n, |i: int| '&')) == seq![
            Err::<char, (HtmlError, Seq<char>)>(
                (HtmlError::UnterminatedEntity, Seq::new(n, |i: int| '&')),
            ),
        ],
{
    let s = Seq::new(n, |i: int| '&');
    let w = Seq::new((n - 1) as nat, |i: int| '&');
    assert(s[0] == '&');
    assert(s.drop_first() =~= w + Seq::<char>::empty());
    lemma_read_chars(Policy::Strict, seq!['&'], w, Seq::empty());
    assert(seq!['&'] + w =~= s);
}

/// An `&` followed by six chars none of which is `;` is an entity too long:
/// strict decoding fails with that error over those seven chars.
pub proof fn lemma_entity_too_long(s: Seq<char>)
    requires
        s.len() >= MAX_ESCAPE_LEN + 1,
        s[0] == '&',
        forall|i: int| 1 <= i <= MAX_ESCAPE_LEN ==> s[i] != ';',
    ensures
        spec_decode_all(s) == Err::<Seq<char>, (HtmlError, Seq<char>)>(
            (HtmlError::EntityTooLong, s.take(MAX_ESCAPE_LEN + 1)),
        ),
{
    let w = s.subrange(1, 6);
    assert(s.drop_first() =~= w + s.skip(6));
    lemma_read_chars(Policy::Strict, seq!['&'], w, s.skip(6));
    assert(seq!['&'] + w =~= s.take(6));
    let u = s.skip(6);
    assert(u[0] == s[6]);
    assert(u.drop_first() =~= s.skip(7));
    assert(s.take(6).push(s[6]) =~= s.take(7));
    let e: Outcome = Err((HtmlError::EntityTooLong, s.take(7)));
    let first = seq![e];
    assert(first.drop_last() =~= Seq::<Outcome>::empty());
    assert(collect(first.drop_last()) is Ok);
    assert(first.last() == e);
    assert(collect(first) == Err::<Seq<char>, (HtmlError, Seq<char>)>(
        (HtmlError::EntityTooLong, s.take(7)),
    ));
    lemma_collect_extend(first, decode_from(Policy::Strict, Seq::empty(), s.skip(7)));
}

/// Under the lenient policy decoding never reports an error.
pub proof fn lemma_lenient_never_fails(acc: Seq<char>, s: Seq<char>)
    ensures
        forall|i: int|
            0 <= i < decode_from(Policy::Lenient, acc, s).len() ==> (#[trigger] decode_from(
                Policy::Lenient,
                acc,
                s,
            )[i]) is Ok,
    decreases s.len(),
{
    let e = Seq::<char>::empty();
    if s.len() > 0 {
        let c = s[0];
        let rest = s.drop_first();
        if acc.len() == 0 {
            if c == '&' {
                lemma_lenient_never_fails(seq!['&'], rest);
            } else {
                lemma_lenient_never_fails(e, rest);
            }
        } else if c == ';' && spec_char_for(acc.drop_first().push(c)) is Some {
            lemma_lenient_never_fails(e, rest);
        } else if c == ';' || acc.len() + 1 > MAX_ESCAPE_LEN {
            lemma_lenient_never_fails(e, rest);
        } else {
            lemma_lenient_never_fails(acc.push(c), rest);
        }
    }
}

/// A complete `&name;` span whose name is not in the table makes strict
/// decoding fail with an unrecognized-entity error over the span, whatever follows.
pub proof fn lemma_unrecognized_entity(body: Seq<char>, t: Seq<char>)
    requires
        body.len() + 2 <= MAX_ESCAPE_LEN + 1,
        forall|i: int| 0 <= i < body.len() ==> body[i] != ';',
        spec_char_for(body.push(';')) is None,
    ensures
        spec_decode_all(seq!['&'] + body.push(';') + t) == Err::<Seq<char>, (HtmlError, Seq<char>)>(
            (HtmlError::UnrecognizedEntity, seq!['&'] + body.push(';')),
        ),
{
    let s = seq!['&'] + body.push(';') + t;
    assert(s[0] == '&');
    assert(s.drop_first() =~= body + (seq![';'] + t));
    lemma_read_chars(Policy::Strict, seq!['&'], body, seq![';'] + t);
    let acc = seq!['&'] + body;
    let u = seq![';'] + t;
    assert(u[0] == ';');
    assert(u.drop_first() =~= t);
    assert(acc.drop_first().push(';') =~= body.push(';'));
    assert(acc.push(';') =~= seq!['&'] + body.push(';'));
    let e: Outcome = Err((HtmlError::UnrecognizedEntity, acc.push(';')));
    let first = seq![e];
    assert(first.drop_last() =~= Seq::<Outcome>::empty());
    assert(collect(first.drop_last()) is Ok);
    assert(first.last() == e);
    lemma_collect_extend(first, decode_from(Policy::Strict, Seq::empty(), t));
}

} // verus!
