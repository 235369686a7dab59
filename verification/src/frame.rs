//! Length-prefixed message framing over a byte stream.
//!
//! A message travels as `Content-Length: <decimal>\r\n\r\n` followed by a body
//! of exactly that many bytes; messages may sit back to back with no other
//! separator.  The receiver accumulates raw bytes and an expected body length
//! (zero meaning "no header parsed yet"), extracts every complete message a
//! chunk completes, and treats short or malformed data as "wait for more",
//! never as a fatal condition.

use vstd::prelude::*;
use crate::text::{
    append_bytes, dec_digits, dec_value, drop_front, is_digit, lemma_dec_digits_value,
    lemma_dec_value_push, take_front, usize_dec_digits,
};

verus! {

/// The header terminator `\r\n\r\n`.
pub open spec fn terminator() -> Seq<u8> {
    seq![13u8, 10u8, 13u8, 10u8]
}

pub open spec fn has_terminator_at(s: Seq<u8>, i: int) -> bool {
    &&& 0 <= i
    &&& i + 4 <= s.len()
    &&& s.subrange(i, i + 4) == terminator()
}

pub open spec fn is_first_terminator(s: Seq<u8>, i: int) -> bool {
    has_terminator_at(s, i) && forall|j: int| 0 <= j < i ==> !has_terminator_at(s, j)
}

/// Position of the first header terminator in `s`, if any.
pub open spec fn find_terminator(s: Seq<u8>) -> Option<int> {
    if exists|i: int| is_first_terminator(s, i) {
        Some(choose|i: int| is_first_terminator(s, i))
    } else {
        None
    }
}

pub proof fn lemma_first_terminator_unique(s: Seq<u8>, i: int, j: int)
    requires
        is_first_terminator(s, i),
        is_first_terminator(s, j),
    ensures
        i == j,
{
    if i < j {
        assert(!has_terminator_at(s, i));
    }
    if j < i {
        assert(!has_terminator_at(s, j));
    }
}

pub proof fn lemma_find_terminator_some(s: Seq<u8>, i: int)
    requires
        is_first_terminator(s, i),
    ensures
        find_terminator(s) == Some(i),
{
    let w = choose|k: int| is_first_terminator(s, k);
    lemma_first_terminator_unique(s, i, w);
}

pub proof fn lemma_find_terminator_bounds(s: Seq<u8>, i: int)
    requires
        find_terminator(s) == Some(i),
    ensures
        is_first_terminator(s, i),
        0 <= i,
        i + 4 <= s.len(),
{
    let w = choose|k: int| is_first_terminator(s, k);
    assert(is_first_terminator(s, w));
}

/// Lowercase image of an ASCII byte.
pub open spec fn ascii_lower(b: u8) -> u8 {
    if 65 <= b <= 90 {
        (b + 32) as u8
    } else {
        b
    }
}

/// The bytes of `content-length: `, the header key in lowercase.
pub open spec fn cl_key() -> Seq<u8> {
    seq![
        99u8,
        111u8,
        110u8,
        116u8,
        101u8,
        110u8,
        116u8,
        45u8,
        108u8,
        101u8,
        110u8,
        103u8,
        116u8,
        104u8,
        58u8,
        32u8,
    ]
}

/// The key matches at `i`, regardless of letter case, and a digit follows it.
pub open spec fn cl_match_at(h: Seq<u8>, i: int) -> bool {
    &&& 0 <= i
    &&& i + 16 < h.len()
    &&& forall|k: int| 0 <= k < 16 ==> ascii_lower(h[i + k]) == cl_key()[k]
    &&& is_digit(h[i + 16])
}

pub open spec fn is_first_cl_match(h: Seq<u8>, i: int) -> bool {
    cl_match_at(h, i) && forall|j: int| 0 <= j < i ==> !cl_match_at(h, j)
}

/// `k` closes the run of digit bytes that starts at `start`.
pub open spec fn is_digit_run_end(h: Seq<u8>, start: int, k: int) -> bool {
    &&& start <= k <= h.len()
    &&& k == h.len() || !is_digit(h[k])
    &&& forall|m: int| start <= m < k ==> is_digit(h[m])
}

pub open spec fn digit_run_end(h: Seq<u8>, start: int) -> int {
    choose|k: int| is_digit_run_end(h, start, k)
}

pub proof fn lemma_digit_run_end_unique(h: Seq<u8>, start: int, k1: int, k2: int)
    requires
        is_digit_run_end(h, start, k1),
        is_digit_run_end(h, start, k2),
    ensures
        k1 == k2,
{
    if k1 < k2 {
        assert(is_digit(h[k1]));
    }
    if k2 < k1 {
        assert(is_digit(h[k2]));
    }
}

/// The declared content length of a header: the decimal run that follows the
/// first case-insensitive `content-length: ` key, if there is one.
pub open spec fn content_length_of(h: Seq<u8>) -> Option<nat> {
    if exists|i: int| is_first_cl_match(h, i) {
        let i = choose|i: int| is_first_cl_match(h, i);
        Some(dec_value(h.subrange(i + 16, digit_run_end(h, i + 16))))
    } else {
        None
    }
}

pub proof fn lemma_first_cl_match_unique(h: Seq<u8>, i: int, j: int)
    requires
        is_first_cl_match(h, i),
        is_first_cl_match(h, j),
    ensures
        i == j,
{
    if i < j {
        assert(!cl_match_at(h, i));
    }
    if j < i {
        assert(!cl_match_at(h, j));
    }
}

/// What a receiver in state (`buf`, `expected`) extracts, and the state it is
/// left in: the complete message bodies in order, the bytes kept back, and the
/// body length still awaited (zero when a header is awaited instead).
pub open spec fn spec_drain(buf: Seq<u8>, expected: nat) -> (Seq<Seq<u8>>, Seq<u8>, nat)
    decreases buf.len(),
{
    if expected == 0 {
        match find_terminator(buf) {
            Some(i) => {
                if 0 <= i && i + 4 <= buf.len() {
                    match content_length_of(buf.subrange(0, i)) {
                        Some(n) => {
                            if n > usize::MAX as nat {
                                (Seq::<Seq<u8>>::empty(), buf, 0nat)
                            } else {
                                spec_drain(buf.subrange(i + 4, buf.len() as int), n)
                            }
                        },
                        None => (Seq::<Seq<u8>>::empty(), buf, 0nat),
                    }
                } else {
                    (Seq::<Seq<u8>>::empty(), buf, 0nat)
                }
            },
            None => (Seq::<Seq<u8>>::empty(), buf, 0nat),
        }
    } else {
        if buf.len() < expected {
            (Seq::<Seq<u8>>::empty(), buf, expected)
        } else {
            let body = buf.subrange(0, expected as int);
            let rest = spec_drain(buf.subrange(expected as int, buf.len() as int), 0nat);
            (seq![body] + rest.0, rest.1, rest.2)
        }
    }
}

/// First header terminator in `v`, executable form.
fn find_terminator_exec(v: &Vec<u8>) -> (r: Option<usize>)
    ensures
        match r {
            Some(i) => find_terminator(v@) == Some(i as int) && i + 4 <= v.len(),
            None => find_terminator(v@) is None,
        },
{
    if v.len() < 4 {
        proof {
            assert(forall|i: int| !has_terminator_at(v@, i));
            if exists|i: int| is_first_terminator(v@, i) {
                let w = choose|i: int| is_first_terminator(v@, i);
                assert(has_terminator_at(v@, w));
            }
        }
        return None;
    }
    let mut i: usize = 0;
    while i <= v.len() - 4
        invariant
            4 <= v.len(),
            i <= v.len() - 3,
            forall|j: int| 0 <= j < i ==> !has_terminator_at(v@, j),
        decreases v.len() - i,
    {
        if v[i] == 13 && v[i + 1] == 10 && v[i + 2] == 13 && v[i + 3] == 10 {
            proof {
                assert(v@.subrange(i as int, i + 4 as int) =~= terminator());
                lemma_find_terminator_some(v@, i as int);
            }
            return Some(i);
        }
        proof {
            assert(!has_terminator_at(v@, i as int)) by {
                if has_terminator_at(v@, i as int) {
                    assert(v@.subrange(i as int, i + 4 as int)[0] == v@[i as int]);
                    assert(v@.subrange(i as int, i + 4 as int)[1] == v@[i + 1]);
                    assert(v@.subrange(i as int, i + 4 as int)[2] == v@[i + 2]);
                    assert(v@.subrange(i as int, i + 4 as int)[3] == v@[i + 3]);
                }
            }
        }
        i += 1;
    }
    proof {
        assert(forall|j: int| 0 <= j ==> !has_terminator_at(v@, j)) by {
            assert(forall|j: int| j > v@.len() - 4 ==> !has_terminator_at(v@, j));
        }
        if exists|j: int| is_first_terminator(v@, j) {
            let w = choose|j: int| is_first_terminator(v@, j);
            assert(has_terminator_at(v@, w));
        }
    }
    None
}

/// Lowercase image of an ASCII byte, executable form.
fn lower_byte(b: u8) -> (r: u8)
    ensures
        r == ascii_lower(b),
{
    if 65 <= b && b <= 90 {
        b + 32
    } else {
        b
    }
}

/// The lowercase header key as bytes.
fn cl_key_exec() -> (r: Vec<u8>)
    ensures
        r@ == cl_key(),
{
    let mut r: Vec<u8> = Vec::new();
    r.push(99);
    r.push(111);
    r.push(110);
    r.push(116);
    r.push(101);
    r.push(110);
    r.push(116);
    r.push(45);
    r.push(108);
    r.push(101);
    r.push(110);
    r.push(103);
    r.push(116);
    r.push(104);
    r.push(58);
    r.push(32);
    proof {
        assert(r@ =~= cl_key());
    }
    r
}

/// Does the header key (with a digit after it) match at position `i`?
fn cl_match_at_exec(h: &Vec<u8>, i: usize, key: &Vec<u8>) -> (r: bool)
    requires
        i + 16 < h.len(),
        key@ == cl_key(),
    ensures
        r == cl_match_at(h@, i as int),
{
    let mut k: usize = 0;
    while k < 16
        invariant
            i + 16 < h.len(),
            key@ == cl_key(),
            k <= 16,
            forall|t: int| 0 <= t < k ==> ascii_lower(h@[i + t]) == cl_key()[t],
        decreases 16 - k,
    {
        if lower_byte(h[i + k]) != key[k] {
            return false;
        }
        k += 1;
    }
    let d = h[i + 16];
    48 <= d && d <= 57
}

/// Outcome of looking for a content length in a header.
enum HeaderLen {
    /// The header holds no content-length key: not yet a valid header.
    NoMatch,
    /// The declared length does not fit the machine.
    TooBig,
    /// The declared body length.
    Len(usize),
}

/// Content length declared by a header, executable form.
fn parse_content_length_exec(h: &Vec<u8>) -> (r: HeaderLen)
    ensures
        match r {
            HeaderLen::NoMatch => content_length_of(h@) is None,
            HeaderLen::TooBig => content_length_of(h@) matches Some(n) && n > usize::MAX as nat,
            HeaderLen::Len(u) => content_length_of(h@) == Some(u as nat),
        },
{
    if h.len() < 17 {
        proof {
            assert(forall|i: int| !cl_match_at(h@, i));
            if exists|i: int| is_first_cl_match(h@, i) {
                let w = choose|i: int| is_first_cl_match(h@, i);
                assert(cl_match_at(h@, w));
            }
        }
        return HeaderLen::NoMatch;
    }
    let key = cl_key_exec();
    let mut i: usize = 0;
    let mut found: Option<usize> = None;
    while i <= h.len() - 17 && found.is_none()
        invariant
            17 <= h.len(),
            i <= h.len() - 16,
            match found {
                Some(f) => is_first_cl_match(h@, f as int) && f + 16 < h.len(),
                None => forall|j: int| 0 <= j < i ==> !cl_match_at(h@, j),
            },
            key@ == cl_key(),
        decreases h.len() - i + (if found is None { 1int } else { 0int }),
    {
        if cl_match_at_exec(h, i, &key) {
            found = Some(i);
        } else {
            i += 1;
        }
    }
    match found {
        None => {
            proof {
                assert(forall|j: int| 0 <= j ==> !cl_match_at(h@, j)) by {
                    assert(forall|j: int| j > h@.len() - 17 ==> !cl_match_at(h@, j));
                }
                if exists|j: int| is_first_cl_match(h@, j) {
                    let w = choose|j: int| is_first_cl_match(h@, j);
                    assert(cl_match_at(h@, w));
                }
            }
            HeaderLen::NoMatch
        },
        Some(f) => {
            let start = f + 16;
            let mut j: usize = start;
            let mut acc: u128 = 0;
            let mut big = false;
            loop
                invariant
                    start <= j <= h.len(),
                    start < h.len(),
                    forall|m: int| start <= m < j ==> is_digit(h@[m]),
                    !big ==> acc as nat == dec_value(h@.subrange(start as int, j as int)) && acc
                        <= usize::MAX as u128,
                    big ==> dec_value(h@.subrange(start as int, j as int)) > usize::MAX as nat,
                ensures
                    start <= j <= h.len(),
                    is_digit_run_end(h@, start as int, j as int),
                    !big ==> acc as nat == dec_value(h@.subrange(start as int, j as int)) && acc
                        <= usize::MAX as u128,
                    big ==> dec_value(h@.subrange(start as int, j as int)) > usize::MAX as nat,
                decreases h.len() - j,
            {
                if j == h.len() {
                    break ;
                }
                let b = h[j];
                if !(48 <= b && b <= 57) {
                    break ;
                }
                let ghost run = h@.subrange(start as int, j as int);
                proof {
                    assert(h@.subrange(start as int, j + 1 as int) =~= run.push(h@[j as int]));
                    lemma_dec_value_push(run, h@[j as int]);
                }
                if !big {
                    acc = acc * 10 + ((b - 48) as u128);
                    if acc > (usize::MAX as u128) {
                        big = true;
                    }
                }
                j += 1;
            }
            proof {
                assert(is_digit_run_end(h@, start as int, j as int));
                assert(is_first_cl_match(h@, f as int));
                lemma_first_cl_match_unique(
                    h@,
                    f as int,
                    choose|i0: int| is_first_cl_match(h@, i0),
                );
                lemma_digit_run_end_unique(
                    h@,
                    start as int,
                    j as int,
                    digit_run_end(h@, start as int),
                );
                assert(content_length_of(h@) == Some(
                    dec_value(h@.subrange(start as int, j as int)),
                ));
            }
            if big {
                HeaderLen::TooBig
            } else {
                HeaderLen::Len(acc as usize)
            }
        },
    }
}

/// Receiver state: the raw bytes accumulated so far and the body length the
/// receiver is waiting for (zero while it is still waiting for a header).
pub struct FrameBuffer {
    pub data: Vec<u8>,
    pub expected: usize,
}

impl FrameBuffer {
    pub open spec fn buffered(&self) -> Seq<u8> {
        self.data@
    }

    pub open spec fn awaiting(&self) -> nat {
        self.expected as nat
    }

    pub fn new() -> (s: Self)
        ensures
            s.buffered() == Seq::<u8>::empty(),
            s.awaiting() == 0,
    {
        FrameBuffer { data: Vec::new(), expected: 0 }
    }

    /// Absorb one chunk of input and hand back every message body it
    /// completes, in stream order; the buffer keeps exactly the bytes of the
    /// message still in progress.
    pub fn feed(&mut self, chunk: &Vec<u8>) -> (msgs: Vec<Vec<u8>>)
        ensures
            ({
                let r = spec_drain(old(self).buffered() + chunk@, old(self).awaiting());
                &&& msgs@.map_values(|m: Vec<u8>| m@) == r.0
                &&& final(self).buffered() == r.1
                &&& final(self).awaiting() == r.2
            }),
    {
        append_bytes(&mut self.data, chunk);
        let ghost total0 = old(self).buffered() + chunk@;
        let ghost e0 = old(self).awaiting();
        let mut msgs: Vec<Vec<u8>> = Vec::new();
        proof {
            assert(msgs@.map_values(|m: Vec<u8>| m@) =~= Seq::<Seq<u8>>::empty());
        }
        loop
            invariant
                ({
                    let r = spec_drain(total0, e0);
                    let c = spec_drain(self.data@, self.expected as nat);
                    &&& r.0 == msgs@.map_values(|m: Vec<u8>| m@) + c.0
                    &&& r.1 == c.1
                    &&& r.2 == c.2
                }),
            ensures
                ({
                    let c = spec_drain(self.data@, self.expected as nat);
                    &&& c.0 == Seq::<Seq<u8>>::empty()
                    &&& c.1 == self.data@
                    &&& c.2 == self.expected as nat
                }),
            decreases self.data.len(),
        {
            let ghost cur = self.data@;
            let ghost cure = self.expected as nat;
            if self.expected == 0 {
                match find_terminator_exec(&self.data) {
                    None => {
                        break ;
                    },
                    Some(i) => {
                        let header = take_front(&self.data, i);
                        proof {
                            lemma_find_terminator_bounds(cur, i as int);
                            assert(header@ =~= cur.subrange(0, i as int));
                        }
                        match parse_content_length_exec(&header) {
                            HeaderLen::NoMatch => {
                                break ;
                            },
                            HeaderLen::TooBig => {
                                break ;
                            },
                            HeaderLen::Len(n) => {
                                self.data = drop_front(&self.data, i + 4);
                                self.expected = n;
                                proof {
                                    assert(self.data@ =~= cur.subrange(i + 4, cur.len() as int));
                                    assert(spec_drain(cur, cure) == spec_drain(
                                        self.data@,
                                        self.expected as nat,
                                    ));
                                }
                            },
                        }
                    },
                }
            } else {
                if self.data.len() < self.expected {
                    break ;
                }
                let body = take_front(&self.data, self.expected);
                self.data = drop_front(&self.data, self.expected);
                self.expected = 0;
                proof {
                    assert(body@ =~= cur.subrange(0, cure as int));
                    assert(self.data@ =~= cur.subrange(cure as int, cur.len() as int));
                }
                msgs.push(body);
                proof {
                    let prev = msgs@.drop_last();
                    assert(prev.map_values(|m: Vec<u8>| m@).push(body@) =~= msgs@.map_values(
                        |m: Vec<u8>| m@,
                    ));
                    let c = spec_drain(self.data@, 0nat);
                    assert(spec_drain(cur, cure).0 == seq![body@] + c.0);
                    assert((prev.map_values(|m: Vec<u8>| m@) + (seq![body@] + c.0)) =~= (
                    msgs@.map_values(|m: Vec<u8>| m@) + c.0));
                }
            }
        }
        proof {
            let r = spec_drain(total0, e0);
            assert(msgs@.map_values(|m: Vec<u8>| m@) + Seq::<Seq<u8>>::empty() =~= msgs@.map_values(
                |m: Vec<u8>| m@,
            ));
        }
        msgs
    }
}

/// The canonical header prefix `Content-Length: ` used when sending.
pub open spec fn cl_header() -> Seq<u8> {
    seq![
        67u8,
        111u8,
        110u8,
        116u8,
        101u8,
        110u8,
        116u8,
        45u8,
        76u8,
        101u8,
        110u8,
        103u8,
        116u8,
        104u8,
        58u8,
        32u8,
    ]
}

/// The complete wire form of one message body.
pub open spec fn spec_encode(body: Seq<u8>) -> Seq<u8> {
    cl_header() + dec_digits(body.len()) + terminator() + body
}

/// Frame one message body for sending: header, terminator, then the body,
/// as a single emission.
pub fn encode_frame(body: &Vec<u8>) -> (r: Vec<u8>)
    ensures
        r@ == spec_encode(body@),
{
    let mut r: Vec<u8> = Vec::new();
    r.push(67);
    r.push(111);
    r.push(110);
    r.push(116);
    r.push(101);
    r.push(110);
    r.push(116);
    r.push(45);
    r.push(76);
    r.push(101);
    r.push(110);
    r.push(103);
    r.push(116);
    r.push(104);
    r.push(58);
    r.push(32);
    proof {
        assert(r@ =~= cl_header());
    }
    let digits = usize_dec_digits(body.len());
    append_bytes(&mut r, &digits);
    r.push(13);
    r.push(10);
    r.push(13);
    r.push(10);
    proof {
        assert(r@ =~= cl_header() + dec_digits(body@.len()) + terminator());
    }
    append_bytes(&mut r, body);
    proof {
        assert(r@ =~= spec_encode(body@));
    }
    r
}

pub proof fn lemma_find_terminator_prefix(b1: Seq<u8>, b2: Seq<u8>, i: int)
    requires
        find_terminator(b1) == Some(i),
    ensures
        find_terminator(b1 + b2) == Some(i),
{
    lemma_find_terminator_bounds(b1, i);
    let s = b1 + b2;
    assert(s.subrange(i, i + 4) =~= b1.subrange(i, i + 4));
    assert(has_terminator_at(s, i));
    assert forall|j: int| 0 <= j < i implies !has_terminator_at(s, j) by {
        if has_terminator_at(s, j) {
            assert(s.subrange(j, j + 4) =~= b1.subrange(j, j + 4));
            assert(has_terminator_at(b1, j));
        }
    }
    lemma_find_terminator_some(s, i);
}

/// Splitting the input into chunks never changes what is extracted: draining
/// one chunk and then the next from the leftover state yields the same bodies,
/// leftover bytes and awaited length as draining their concatenation at once.
pub proof fn lemma_drain_chunked(b1: Seq<u8>, b2: Seq<u8>, e: nat)
    ensures
        ({
            let first = spec_drain(b1, e);
            let second = spec_drain(first.1 + b2, first.2);
            let whole = spec_drain(b1 + b2, e);
            &&& whole.0 == first.0 + second.0
            &&& whole.1 == second.1
            &&& whole.2 == second.2
        }),
    decreases b1.len(),
{
    let first = spec_drain(b1, e);
    let whole = spec_drain(b1 + b2, e);
    if e == 0 {
        match find_terminator(b1) {
            None => {
                let second = spec_drain(b1 + b2, 0nat);
                assert(Seq::<Seq<u8>>::empty() + second.0 =~= second.0);
            },
            Some(i) => {
                lemma_find_terminator_bounds(b1, i);
                lemma_find_terminator_prefix(b1, b2, i);
                assert((b1 + b2).subrange(0, i) =~= b1.subrange(0, i));
                match content_length_of(b1.subrange(0, i)) {
                    None => {
                        let second = spec_drain(b1 + b2, 0nat);
                        assert(Seq::<Seq<u8>>::empty() + second.0 =~= second.0);
                    },
                    Some(n) => {
                        if n > usize::MAX as nat {
                            let second = spec_drain(b1 + b2, 0nat);
                            assert(Seq::<Seq<u8>>::empty() + second.0 =~= second.0);
                        } else {
                            let b1t = b1.subrange(i + 4, b1.len() as int);
                            assert((b1 + b2).subrange(i + 4, (b1 + b2).len() as int) =~= b1t + b2);
                            lemma_drain_chunked(b1t, b2, n);
                        }
                    },
                }
            },
        }
    } else {
        if b1.len() < e {
            let second = spec_drain(b1 + b2, e);
            assert(Seq::<Seq<u8>>::empty() + second.0 =~= second.0);
        } else {
            let body = b1.subrange(0, e as int);
            let b1t = b1.subrange(e as int, b1.len() as int);
            assert((b1 + b2).subrange(0, e as int) =~= body);
            assert((b1 + b2).subrange(e as int, (b1 + b2).len() as int) =~= b1t + b2);
            lemma_drain_chunked(b1t, b2, 0nat);
            let f2 = spec_drain(b1t, 0nat);
            let second = spec_drain(f2.1 + b2, f2.2);
            assert((seq![body] + (f2.0 + second.0)) =~= ((seq![body] + f2.0) + second.0));
        }
    }
}

/// The header that `spec_encode` writes declares exactly the body's length.
proof fn lemma_encoded_header_parses(body: Seq<u8>)
    ensures
        content_length_of(cl_header() + dec_digits(body.len())) == Some(body.len()),
{
    let digits = dec_digits(body.len());
    lemma_dec_digits_value(body.len());
    let h = cl_header() + digits;
    let hlen = 16 + digits.len() as int;
    assert(h.len() == hlen);
    assert forall|k: int| 0 <= k < 16 implies ascii_lower(h[k]) == cl_key()[k] by {
        assert(h[k] == cl_header()[k]);
    }
    assert(h[16] == digits[0]);
    assert(is_digit(h[16]));
    assert(cl_match_at(h, 0));
    assert(is_first_cl_match(h, 0));
    assert forall|m: int| 16 <= m < hlen implies is_digit(h[m]) by {
        assert(h[m] == digits[m - 16]);
    }
    assert(is_digit_run_end(h, 16, hlen));
    lemma_first_cl_match_unique(h, 0, choose|i0: int| is_first_cl_match(h, i0));
    lemma_digit_run_end_unique(h, 16, hlen, digit_run_end(h, 16));
    assert(h.subrange(16, hlen) =~= digits);
}

/// Framing round trip: the wire form of one body drains back to exactly that
/// one body, leaving an empty buffer awaiting a header.
#[verifier::rlimit(60)]
pub proof fn lemma_encode_round_trip(body: Seq<u8>)
    requires
        0 < body.len() <= usize::MAX as nat,
    ensures
        ({
            let d = spec_drain(spec_encode(body), 0nat);
            &&& d.0 == seq![body]
            &&& d.1 == Seq::<u8>::empty()
            &&& d.2 == 0
        }),
{
    let s = spec_encode(body);
    let digits = dec_digits(body.len());
    lemma_dec_digits_value(body.len());
    let hlen = 16 + digits.len() as int;
    assert(s.len() == hlen + 4 + body.len());
    assert forall|j: int| 0 <= j < hlen implies s[j] != 13 by {
        if j < 16 {
            assert(s[j] == cl_header()[j]);
        } else {
            assert(s[j] == digits[j - 16]);
            assert(is_digit(digits[j - 16]));
        }
    }
    assert(s.subrange(hlen, hlen + 4) =~= terminator());
    assert(has_terminator_at(s, hlen));
    assert forall|j: int| 0 <= j < hlen implies !has_terminator_at(s, j) by {
        if has_terminator_at(s, j) {
            assert(s.subrange(j, j + 4)[0] == s[j]);
            assert(s[j] == 13);
        }
    }
    lemma_find_terminator_some(s, hlen);
    let h = s.subrange(0, hlen);
    lemma_encoded_header_parses(body);
    assert(h =~= cl_header() + digits);
    assert(content_length_of(h) == Some(body.len()));
    let tail = s.subrange(hlen + 4, s.len() as int);
    assert(tail =~= body);
    assert(spec_drain(s, 0nat) == spec_drain(body, body.len()));
    assert(body.subrange(0, body.len() as int) =~= body);
    let emptied = body.subrange(body.len() as int, body.len() as int);
    assert(emptied =~= Seq::<u8>::empty());
    assert(forall|i: int| !has_terminator_at(emptied, i));
    if exists|i: int| is_first_terminator(emptied, i) {
        let w = choose|i: int| is_first_terminator(emptied, i);
        assert(has_terminator_at(emptied, w));
    }
    assert(spec_drain(emptied, 0nat).0 =~= Seq::<Seq<u8>>::empty());
    assert(seq![body] + Seq::<Seq<u8>>::empty() =~= seq![body]);
}

/// Draining runs to quiescence: the state it leaves behind yields nothing
/// further until more bytes arrive.
pub proof fn lemma_drain_stuck(buf: Seq<u8>, e: nat)
    ensures
        ({
            let r = spec_drain(buf, e);
            &&& spec_drain(r.1, r.2).0 == Seq::<Seq<u8>>::empty()
            &&& spec_drain(r.1, r.2).1 == r.1
            &&& spec_drain(r.1, r.2).2 == r.2
        }),
    decreases buf.len(),
{
    if e == 0 {
        match find_terminator(buf) {
            Some(i) => {
                lemma_find_terminator_bounds(buf, i);
                match content_length_of(buf.subrange(0, i)) {
                    Some(n) => {
                        if n <= usize::MAX as nat {
                            lemma_drain_stuck(buf.subrange(i + 4, buf.len() as int), n);
                        }
                    },
                    None => {},
                }
            },
            None => {},
        }
    } else {
        if buf.len() >= e {
            lemma_drain_stuck(buf.subrange(e as int, buf.len() as int), 0nat);
        }
    }
}

/// Concatenation of a sequence of chunks, in order.
pub open spec fn concat_chunks(chunks: Seq<Seq<u8>>) -> Seq<u8>
    decreases chunks.len(),
{
    if chunks.len() == 0 {
        Seq::<u8>::empty()
    } else {
        chunks[0] + concat_chunks(chunks.drop_first())
    }
}

/// Fold of `spec_drain` over a sequence of chunks, exactly as a receiver
/// that is fed them one at a time performs it.
pub open spec fn spec_drain_chunks(chunks: Seq<Seq<u8>>, buf: Seq<u8>, e: nat) -> (
    Seq<Seq<u8>>,
    Seq<u8>,
    nat,
)
    decreases chunks.len(),
{
    if chunks.len() == 0 {
        (Seq::<Seq<u8>>::empty(), buf, e)
    } else {
        let first = spec_drain(buf + chunks[0], e);
        let rest = spec_drain_chunks(chunks.drop_first(), first.1, first.2);
        (first.0 + rest.0, rest.1, rest.2)
    }
}

/// Chunking invariance in full: from a quiescent state, feeding any split of
/// the input, chunk by chunk, extracts the same bodies and leaves the same
/// state as feeding the whole input at once — in particular, one byte at a
/// time.
pub proof fn lemma_drain_chunks(chunks: Seq<Seq<u8>>, buf: Seq<u8>, e: nat)
    requires
        spec_drain(buf, e).0 == Seq::<Seq<u8>>::empty(),
        spec_drain(buf, e).1 == buf,
        spec_drain(buf, e).2 == e,
    ensures
        ({
            let w = spec_drain(buf + concat_chunks(chunks), e);
            let f = spec_drain_chunks(chunks, buf, e);
            &&& f.0 == w.0
            &&& f.1 == w.1
            &&& f.2 == w.2
        }),
    decreases chunks.len(),
{
    if chunks.len() == 0 {
        assert(buf + concat_chunks(chunks) =~= buf);
        assert(Seq::<Seq<u8>>::empty() + Seq::<Seq<u8>>::empty() =~= Seq::<
            Seq<u8>,
        >::empty());
    } else {
        let first = spec_drain(buf + chunks[0], e);
        lemma_drain_stuck(buf + chunks[0], e);
        lemma_drain_chunks(chunks.drop_first(), first.1, first.2);
        lemma_drain_chunked(buf + chunks[0], concat_chunks(chunks.drop_first()), e);
        assert((buf + chunks[0]) + concat_chunks(chunks.drop_first()) =~= buf + concat_chunks(
            chunks,
        ));
    }
}

/// Framing round trip under any split: however the wire form of one body is
/// cut into chunks, feeding them in order to a fresh receiver dispatches
/// exactly that one body.
pub proof fn lemma_round_trip_any_split(chunks: Seq<Seq<u8>>, body: Seq<u8>)
    requires
        0 < body.len() <= usize::MAX as nat,
        concat_chunks(chunks) == spec_encode(body),
    ensures
        ({
            let f = spec_drain_chunks(chunks, Seq::<u8>::empty(), 0nat);
            &&& f.0 == seq![body]
            &&& f.1 == Seq::<u8>::empty()
            &&& f.2 == 0
        }),
{
    let empty = Seq::<u8>::empty();
    assert(forall|i: int| !has_terminator_at(empty, i));
    if exists|i: int| is_first_terminator(empty, i) {
        let w = choose|i: int| is_first_terminator(empty, i);
        assert(has_terminator_at(empty, w));
    }
    lemma_drain_chunks(chunks, empty, 0nat);
    lemma_encode_round_trip(body);
    assert(empty + spec_encode(body) =~= spec_encode(body));
}

/// Two messages framed back to back in one chunk drain to exactly those two
/// bodies, in order.
pub proof fn lemma_two_messages(a: Seq<u8>, b: Seq<u8>)
    requires
        0 < a.len() <= usize::MAX as nat,
        0 < b.len() <= usize::MAX as nat,
    ensures
        ({
            let d = spec_drain(spec_encode(a) + spec_encode(b), 0nat);
            &&& d.0 == seq![a, b]
            &&& d.1 == Seq::<u8>::empty()
            &&& d.2 == 0
        }),
{
    lemma_encode_round_trip(a);
    lemma_encode_round_trip(b);
    lemma_drain_chunked(spec_encode(a), spec_encode(b), 0nat);
    assert(Seq::<u8>::empty() + spec_encode(b) =~= spec_encode(b));
    assert(seq![a] + seq![b] =~= seq![a, b]);
}

} // verus!
