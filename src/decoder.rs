//! The streaming decoder: a two-state machine with a bounded accumulation buffer.
use vstd::prelude::*;
use crate::entity::{char_for, spec_char_for, MAX_ESCAPE_LEN};
use crate::fix_buf::FixBuf;
use crate::text::{chars_of, push_char, string_of};

verus! {

/// The kinds of malformed input the decoder reports.
#[derive(Clone, Copy, Debug, PartialEq, Eq, Structural)]
pub enum HtmlError {
    /// The input ended while an entity was being read.
    UnterminatedEntity,
    /// An entity grew past the longest escape without reaching `;`.
    EntityTooLong,
    /// A complete `&...;` span names no entity of the table.
    UnrecognizedEntity,
}

/// What the decoder does with a malformed span.
#[derive(Clone, Copy, Debug, PartialEq, Eq, Structural)]
pub enum Policy {
    /// Report the span as an error and go on scanning after it.
    Strict,
    /// Emit the span's text as literal chars and go on scanning after it.
    Lenient,
}

/// A decoding error: what went wrong, and the literal text of the offending span.
#[derive(Debug, PartialEq, Eq)]
pub struct HtmlDecoderError {
    pub kind: HtmlError,
    pub text: String,
}

impl View for HtmlDecoderError {
    type V = (HtmlError, Seq<char>);

    open spec fn view(&self) -> (HtmlError, Seq<char>) {
        (self.kind, self.text@)
    }
}

impl HtmlDecoderError {
    /// An error of kind `kind` over the span `text`.
    pub fn new(kind: HtmlError, text: &str) -> (r: Self)
        ensures
            r@ == (kind, text@),
    {
        HtmlDecoderError { kind, text: String::from_str(text) }
    }

    /// A one-line description: what went wrong, then the offending span.
    pub fn message(&self) -> (r: String)
        ensures
            r@ == error_label(self.kind) + self.text@,
    {
        let mut s = match self.kind {
            HtmlError::UnterminatedEntity => String::from_str("unterminated entity: "),
            HtmlError::EntityTooLong => String::from_str("entity too long: "),
            HtmlError::UnrecognizedEntity => String::from_str("unrecognized entity: "),
        };
        s.append(self.text.as_str());
        s
    }
}

/// The words that open the description of an error of kind `kind`.
pub open spec fn error_label(kind: HtmlError) -> Seq<char> {
    match kind {
        HtmlError::UnterminatedEntity => "unterminated entity: "@,
        HtmlError::EntityTooLong => "entity too long: "@,
        HtmlError::UnrecognizedEntity => "unrecognized entity: "@,
    }
}

/// One element of the decoder's output, as a mathematical value.
pub type Outcome = Result<char, (HtmlError, Seq<char>)>;

/// The value of one element of the decoder's output.
pub open spec fn outcome_view(o: Result<char, HtmlDecoderError>) -> Outcome {
    match o {
        Ok(c) => Ok(c),
        Err(e) => Err(e@),
    }
}

/// Each char of `t`, in order, as a decoded char.
pub open spec fn literal(t: Seq<char>) -> Seq<Outcome> {
    t.map_values(|c: char| Ok::<char, (HtmlError, Seq<char>)>(c))
}

/// The outcomes of decoding `s` in state `acc` (empty: scanning; else the
/// entity text read so far, starting with `&`).
pub open spec fn decode_from(policy: Policy, acc: Seq<char>, s: Seq<char>) -> Seq<Outcome>
    decreases s.len(),
{
    if s.len() == 0 {
        if acc.len() == 0 {
            Seq::empty()
        } else if policy == Policy::Strict {
            seq![Err((HtmlError::UnterminatedEntity, acc))]
        } else {
            literal(acc)
        }
    } else {
        let c = s[0];
        let rest = s.drop_first();
        if acc.len() == 0 {
            if c == '&' {
                decode_from(policy, seq!['&'], rest)
            } else {
                seq![Ok(c)] + decode_from(policy, Seq::empty(), rest)
            }
        } else if c == ';' && spec_char_for(acc.drop_first().push(c)) is Some {
            seq![Ok(spec_char_for(acc.drop_first().push(c))->0)] + decode_from(
                policy,
                Seq::empty(),
                rest,
            )
        } else if c == ';' || acc.len() + 1 > MAX_ESCAPE_LEN {
            let kind = if c == ';' {
                HtmlError::UnrecognizedEntity
            } else {
                HtmlError::EntityTooLong
            };
            if policy == Policy::Strict {
                seq![Err((kind, acc.push(c)))] + decode_from(policy, Seq::empty(), rest)
            } else {
                literal(acc.push(c)) + decode_from(policy, Seq::empty(), rest)
            }
        } else {
            decode_from(policy, acc.push(c), rest)
        }
    }
}

/// All outcomes of decoding `s` from the start.
pub open spec fn spec_decode(policy: Policy, s: Seq<char>) -> Seq<Outcome> {
    decode_from(policy, Seq::empty(), s)
}

/// The chars of `outs` if none is an error, else its first error.
pub open spec fn collect(outs: Seq<Outcome>) -> Result<Seq<char>, (HtmlError, Seq<char>)>
    decreases outs.len(),
{
    if outs.len() == 0 {
        Ok(Seq::empty())
    } else {
        match collect(outs.drop_last()) {
            Err(e) => Err(e),
            Ok(v) => match outs.last() {
                Ok(c) => Ok(v.push(c)),
                Err(e) => Err(e),
            },
        }
    }
}

/// Whole-string strict decoding: the decoded text, or the first error.
pub open spec fn spec_decode_all(s: Seq<char>) -> Result<Seq<char>, (HtmlError, Seq<char>)> {
    collect(spec_decode(Policy::Strict, s))
}

/// Once a prefix holds an error, what follows it does not change the result.
pub proof fn lemma_collect_extend(a: Seq<Outcome>, b: Seq<Outcome>)
    requires
        collect(a) is Err,
    ensures
        collect(a + b) == collect(a),
    decreases b.len(),
{
    if b.len() == 0 {
        assert(a + b =~= a);
    } else {
        lemma_collect_extend(a, b.drop_last());
        assert((a + b).drop_last() =~= a + b.drop_last());
    }
}

proof fn lemma_skip_first(s: Seq<char>, i: int)
    requires
        0 <= i < s.len(),
    ensures
        s.skip(i)[0] == s[i],
        s.skip(i).drop_first() =~= s.skip(i + 1),
        s.skip(i).len() > 0,
{
}

/// The char that the entity `acc` followed by `;` stands for, if any.
fn entity_char(acc: &[char]) -> (r: Option<char>)
    requires
        acc@.len() >= 1,
    ensures
        r == spec_char_for(acc@.drop_first().push(';')),
{
    if acc.len() >= MAX_ESCAPE_LEN {
        assert(acc@.drop_first().push(';').len() >= 6);
        return None;
    }
    let mut name: FixBuf<MAX_ESCAPE_LEN> = FixBuf::new(&acc[1..acc.len()]);
    name.push_back(';');
    assert(name@ =~= acc@.drop_first().push(';'));
    char_for(name.as_slice())
}

/// An error of kind `kind` over the entity text `acc`, followed by `last` if any.
fn span_error(kind: HtmlError, acc: &[char], last: Option<char>) -> (r: HtmlDecoderError)
    ensures
        r@ == (kind, match last {
            Some(c) => acc@.push(c),
            None => acc@,
        }),
{
    let mut text = string_of(acc);
    if let Some(c) = last {
        push_char(&mut text, c);
    }
    HtmlDecoderError { kind, text }
}

/// A pull-based decoder over a char sequence. Each call of `next` reads a
/// whole span (a plain char, or an entity up to where it is settled) before it
/// returns, so between calls the decoder is always scanning; the text of an
/// entity in progress lives in a bounded inline buffer during the call. Under
/// the lenient policy the literal text of a malformed span waits in a second
/// bounded buffer and is handed out one char per call.
pub struct HtmlDecoder {
    source: Vec<char>,
    pos: usize,
    queued: FixBuf<MAX_ESCAPE_LEN>,
    policy: Policy,
}

impl HtmlDecoder {
    /// The decoder's internal state is consistent.
    pub closed spec fn wf(&self) -> bool {
        &&& self.pos <= self.source@.len()
        &&& self.queued.wf()
        &&& self.queued@.len() <= MAX_ESCAPE_LEN
    }

    /// The whole input.
    pub closed spec fn source(&self) -> Seq<char> {
        self.source@
    }

    /// How many chars of the input have been read.
    pub closed spec fn position(&self) -> nat {
        self.pos as nat
    }

    /// Literal chars of a malformed span still to be handed out (lenient policy).
    pub closed spec fn queued(&self) -> Seq<char> {
        self.queued@
    }

    /// The policy the decoder follows.
    pub closed spec fn policy(&self) -> Policy {
        self.policy
    }

    /// The outcomes that the decoder has still to produce.
    pub open spec fn remaining(&self) -> Seq<Outcome> {
        literal(self.queued()) + decode_from(
            self.policy(),
            Seq::empty(),
            self.source().skip(self.position() as int),
        )
    }

    /// A decoder that will produce the outcomes of decoding `chars` under `policy`.
    pub fn new(chars: Vec<char>, policy: Policy) -> (r: Self)
        ensures
            r.wf(),
            r.policy() == policy,
            r.source() == chars@,
            r.position() == 0,
            r.queued().len() == 0,
            r.remaining() == spec_decode(policy, chars@),
    {
        let r = HtmlDecoder { source: chars, pos: 0, queued: FixBuf::empty(), policy };
        assert(r.source@.skip(0) =~= r.source@);
        assert(literal(r.queued@) + spec_decode(policy, r.source@) =~= spec_decode(
            policy,
            r.source@,
        ));
        r
    }

    /// Produces the next outcome, or `None` once all of them have been produced
    /// (and from then on). Hands out a queued literal char without reading;
    /// else reads one span: one char, or at most the longest escape's length
    /// plus one for an entity.
    pub fn next(&mut self) -> (r: Option<Result<char, HtmlDecoderError>>)
        requires
            old(self).wf(),
        ensures
            final(self).wf(),
            final(self).policy() == old(self).policy(),
            final(self).source() == old(self).source(),
            final(self).queued().len() <= MAX_ESCAPE_LEN,
            old(self).remaining().len() == 0 ==> r is None
                && final(self).remaining() == old(self).remaining(),
            old(self).remaining().len() > 0 ==> r is Some
                && outcome_view(r->0) == old(self).remaining()[0]
                && final(self).remaining() == old(self).remaining().drop_first(),
            old(self).queued().len() > 0 ==> r == Some(
                Ok::<char, HtmlDecoderError>(old(self).queued()[0]),
            ) && final(self).queued() == old(self).queued().drop_first() && final(self).position()
                == old(self).position(),
            old(self).queued().len() == 0 ==> old(self).position() <= final(self).position()
                <= old(self).position() + MAX_ESCAPE_LEN + 1,
            old(self).queued().len() == 0 && old(self).position() < old(self).source().len()
                ==> final(self).position() > old(self).position(),
            old(self).queued().len() == 0 && old(self).position() < old(self).source().len()
                && old(self).source()[old(self).position() as int] != '&' ==> r == Some(
                Ok::<char, HtmlDecoderError>(old(self).source()[old(self).position() as int]),
            ) && final(self).position() == old(self).position() + 1,
    {
        if let Some(c) = self.queued.pop_front() {
            assert(literal(self.queued@) =~= literal(old(self).queued@).drop_first());
            assert(self.remaining() =~= old(self).remaining().drop_first());
            return Some(Ok(c));
        }
        assert(literal(self.queued@) =~= Seq::<Outcome>::empty());
        assert(old(self).remaining() =~= decode_from(
            self.policy,
            Seq::empty(),
            self.source@.skip(self.pos as int),
        ));
        let ghost pos0 = self.pos;
        let mut acc: FixBuf<MAX_ESCAPE_LEN> = FixBuf::empty();
        loop
            invariant
                self.wf(),
                self.queued@.len() == 0,
                self.policy == old(self).policy,
                self.source@ == old(self).source@,
                acc.wf(),
                acc@.len() <= MAX_ESCAPE_LEN,
                acc@.len() > 0 ==> acc@[0] == '&',
                self.pos == pos0 + acc@.len(),
                pos0 == old(self).pos,
                old(self).queued@.len() == 0,
                acc@.len() > 0 ==> self.source@[pos0 as int] == '&',
                decode_from(self.policy, acc@, self.source@.skip(self.pos as int)) == old(
                    self,
                ).remaining(),
            decreases self.source@.len() - self.pos,
        {
            if self.pos == self.source.len() {
                assert(self.source@.skip(self.pos as int) =~= Seq::<char>::empty());
                if acc.is_empty() {
                    return None;
                }
                assert(self.remaining() =~= Seq::<Outcome>::empty());
                if self.policy == Policy::Strict {
                    return Some(Err(span_error(HtmlError::UnterminatedEntity, acc.as_slice(), None)));
                }
                let n = acc.len();
                self.queued = FixBuf::new(&acc.as_slice()[1..n]);
                assert(self.queued@ =~= acc@.drop_first());
                assert(self.remaining() =~= literal(acc@).drop_first());
                return Some(Ok('&'));
            }
            let c = self.source[self.pos];
            proof {
                lemma_skip_first(self.source@, self.pos as int);
            }
            let ghost acc0 = acc@;
            self.pos = self.pos + 1;
            let ghost tail = decode_from(self.policy, Seq::empty(), self.source@.skip(self.pos as int));
            if acc.is_empty() {
                assert(acc0 =~= Seq::<char>::empty());
                if c == '&' {
                    acc.push_back('&');
                    assert(acc@ =~= seq!['&']);
                } else {
                    assert(self.remaining() =~= tail);
                    return Some(Ok(c));
                }
            } else {
                let found = if c == ';' {
                    entity_char(acc.as_slice())
                } else {
                    None
                };
                if let Some(d) = found {
                    assert(self.remaining() =~= tail);
                    return Some(Ok(d));
                }
                if c == ';' || acc.len() == MAX_ESCAPE_LEN {
                    let kind = if c == ';' {
                        HtmlError::UnrecognizedEntity
                    } else {
                        HtmlError::EntityTooLong
                    };
                    if self.policy == Policy::Strict {
                        assert(self.remaining() =~= tail);
                        return Some(Err(span_error(kind, acc.as_slice(), Some(c))));
                    }
                    let n = acc.len();
                    self.queued = FixBuf::new(&acc.as_slice()[1..n]);
                    self.queued.push_back(c);
                    assert(self.queued@ =~= acc0.push(c).drop_first());
                    assert(literal(self.queued@) =~= literal(acc0.push(c)).drop_first());
                    assert(self.remaining() =~= (literal(acc0.push(c)) + tail).drop_first());
                    return Some(Ok('&'));
                }
                acc.push_back(c);
            }
        }
    }
}

/// Decodes the whole of `html` under the strict policy: the decoded text, or
/// the first error met (and no partial output).
pub fn html_decode_1(html: &str) -> (r: Result<String, HtmlDecoderError>)
    ensures
        r matches Ok(t) ==> spec_decode_all(html@) == Ok::<Seq<char>, (HtmlError, Seq<char>)>(
            t@,
        ),
        r matches Err(e) ==> spec_decode_all(html@) == Err::<Seq<char>, (HtmlError, Seq<char>)>(
            e@,
        ),
{
    let mut decoder = HtmlDecoder::new(chars_of(html), Policy::Strict);
    let mut out = String::new();
    let ghost done: Seq<Outcome> = Seq::empty();
    loop
        invariant
            decoder.wf(),
            decoder.policy() == Policy::Strict,
            done + decoder.remaining() == spec_decode(Policy::Strict, html@),
            collect(done) == Ok::<Seq<char>, (HtmlError, Seq<char>)>(out@),
        decreases decoder.remaining().len(),
    {
        let ghost before = decoder.remaining();
        match decoder.next() {
            None => {
                assert(done =~= spec_decode(Policy::Strict, html@));
                return Ok(out);
            },
            Some(Ok(c)) => {
                proof {
                    let d2 = done.push(Ok(c));
                    assert(d2.drop_last() =~= done);
                    assert(d2 + decoder.remaining() =~= done + before);
                    done = d2;
                }
                push_char(&mut out, c);
            },
            Some(Err(e)) => {
                proof {
                    let d2 = done.push(Err(e@));
                    assert(d2.drop_last() =~= done);
                    assert(d2 + decoder.remaining() =~= done + before);
                    lemma_collect_extend(d2, decoder.remaining());
                }
                return Err(e);
            },
        }
    }
}

} // verus!
