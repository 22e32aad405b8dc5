//! The streaming encoder: each reserved char becomes its escape, one char per pull.
use vstd::prelude::*;
use crate::entity::{escape_name_for, spec_escape_name, MAX_ESCAPE_LEN};
use crate::fix_buf::FixBuf;
use crate::text::{chars_of, push_char};

verus! {

/// What one input char encodes to: its escape if it is reserved, else itself.
pub open spec fn escaped(c: char) -> Seq<char> {
    match spec_escape_name(c) {
        Some(name) => seq!['&'] + name,
        None => seq![c],
    }
}

/// The encoding of a whole sequence: the escapes of its chars, concatenated.
pub open spec fn spec_encode(s: Seq<char>) -> Seq<char>
    decreases s.len(),
{
    if s.len() == 0 {
        Seq::empty()
    } else {
        escaped(s[0]) + spec_encode(s.drop_first())
    }
}

/// Encoding the suffix from `i` on starts with the escape of `s[i]`.
pub proof fn lemma_encode_skip(s: Seq<char>, i: int)
    requires
        0 <= i < s.len(),
    ensures
        spec_encode(s.skip(i)) == escaped(s[i]) + spec_encode(s.skip(i + 1)),
{
    assert(s.skip(i).drop_first() =~= s.skip(i + 1));
}

/// A pull-based encoder over a char sequence. Pending output of the char
/// being expanded sits in a bounded inline buffer.
pub struct HtmlEncoder {
    source: Vec<char>,
    pos: usize,
    pending: FixBuf<MAX_ESCAPE_LEN>,
}

impl HtmlEncoder {
    /// The encoder's internal state is consistent.
    pub closed spec fn wf(&self) -> bool {
        &&& self.pos <= self.source@.len()
        &&& self.pending.wf()
        &&& self.pending@.len() < MAX_ESCAPE_LEN
    }

    /// The whole input.
    pub closed spec fn source(&self) -> Seq<char> {
        self.source@
    }

    /// How many chars of the input have been read.
    pub closed spec fn position(&self) -> nat {
        self.pos as nat
    }

    /// The rest of the escape being produced, not yet handed out.
    pub closed spec fn pending(&self) -> Seq<char> {
        self.pending@
    }

    /// The chars that the encoder has still to produce.
    pub open spec fn remaining(&self) -> Seq<char> {
        self.pending() + spec_encode(self.source().skip(self.position() as int))
    }

    /// An encoder that will produce the encoding of `chars`.
    pub fn new(chars: Vec<char>) -> (r: Self)
        ensures
            r.wf(),
            r.source() == chars@,
            r.position() == 0,
            r.pending().len() == 0,
            r.remaining() == spec_encode(chars@),
    {
        let r = HtmlEncoder { source: chars, pos: 0, pending: FixBuf::empty() };
        assert(r.source@.skip(0) =~= r.source@);
        assert(r.remaining() =~= spec_encode(r.source@));
        r
    }

    /// Produces the next char of the encoding, or `None` once all of it has been
    /// produced (and from then on). Reads no input while part of an escape is
    /// pending, and one char otherwise.
    pub fn next(&mut self) -> (r: Option<char>)
        requires
            old(self).wf(),
        ensures
            final(self).wf(),
            old(self).remaining().len() == 0 ==> r is None
                && final(self).remaining() == old(self).remaining(),
            old(self).remaining().len() > 0 ==> r == Some(old(self).remaining()[0])
                && final(self).remaining() == old(self).remaining().drop_first(),
            final(self).source() == old(self).source(),
            final(self).pending().len() < MAX_ESCAPE_LEN,
            old(self).pending().len() > 0 ==> r == Some(old(self).pending()[0])
                && final(self).pending() == old(self).pending().drop_first()
                && final(self).position() == old(self).position(),
            old(self).pending().len() == 0 && old(self).position() == old(self).source().len()
                ==> r is None && final(self).pending().len() == 0 && final(self).position()
                == old(self).position(),
            old(self).pending().len() == 0 && old(self).position() < old(self).source().len()
                ==> ({
                let c = old(self).source()[old(self).position() as int];
                &&& final(self).position() == old(self).position() + 1
                &&& r == Some(escaped(c)[0])
                &&& final(self).pending() == escaped(c).drop_first()
            }),
    {
        if let Some(c) = self.pending.pop_front() {
            assert(self.remaining() =~= old(self).remaining().drop_first());
            return Some(c);
        }
        if self.pos == self.source.len() {
            assert(self.source@.skip(self.pos as int) =~= Seq::<char>::empty());
            return None;
        }
        let c = self.source[self.pos];
        proof {
            lemma_encode_skip(self.source@, self.pos as int);
        }
        self.pos = self.pos + 1;
        match escape_name_for(c) {
            Some(name) => {
                self.pending = FixBuf::new(name);
                assert(escaped(c).drop_first() =~= name@);
                assert(self.remaining() =~= old(self).remaining().drop_first());
                Some('&')
            },
            None => {
                assert(escaped(c).drop_first() =~= Seq::<char>::empty());
                assert(self.remaining() =~= old(self).remaining().drop_first());
                Some(c)
            },
        }
    }
}

/// Encodes the whole of `raw`.
pub fn html_encode_1(raw: &str) -> (r: String)
    ensures
        r@ == spec_encode(raw@),
{
    let mut encoder = HtmlEncoder::new(chars_of(raw));
    let mut out = String::new();
    loop
        invariant
            encoder.wf(),
            out@ + encoder.remaining() == spec_encode(raw@),
        ensures
            encoder.remaining().len() == 0,
            out@ == spec_encode(raw@),
        decreases encoder.remaining().len(),
    {
        match encoder.next() {
            Some(c) => {
                push_char(&mut out, c);
                assert(out@ + encoder.remaining() =~= spec_encode(raw@));
            },
            None => {
                assert(out@ =~= spec_encode(raw@));
                break;
            },
        }
    }
    out
}

} // verus!
