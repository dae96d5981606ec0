//! The wire codec: the byte encodings of replies, a writer that appends
//! them to an owned buffer, and an incremental parser of requests (arrays of
//! length-prefixed byte strings).
use bytes::Bytes;
use std::ops::Deref;
use vstd::prelude::*;

use crate::store::keys_view;

verus! {

/// The writer reports that it should be flushed once it holds this many bytes.
pub const FLUSH_THRESHOLD: usize = 8192;

/// Capacity that a new writer reserves.
pub const DEFAULT_BUFFER_SIZE: usize = 16384;

/// Carriage return and line feed.
pub open spec fn crlf() -> Seq<u8> {
    seq![13u8, 10u8]
}

/// The bytes of a string of ASCII characters.
pub open spec fn ascii(s: Seq<char>) -> Seq<u8> {
    s.map_values(|c: char| c as u8)
}

/// ASCII decimal digits of `n`, without leading zeros; `0` for zero.
pub open spec fn decimal(n: nat) -> Seq<u8>
    decreases n,
{
    if n < 10 {
        seq![(48 + n) as u8]
    } else {
        decimal(n / 10).push((48 + n % 10) as u8)
    }
}

/// `+<s>` and a line end.
pub open spec fn simple_reply(s: Seq<u8>) -> Seq<u8> {
    seq![43u8] + s + crlf()
}

/// `-ERR <s>` and a line end.
pub open spec fn error_reply(s: Seq<u8>) -> Seq<u8> {
    seq![45u8, 69u8, 82u8, 82u8, 32u8] + s + crlf()
}

/// `:<n>` and a line end.
pub open spec fn integer_reply(n: nat) -> Seq<u8> {
    seq![58u8] + decimal(n) + crlf()
}

/// `$<len>`, a line end, the bytes, and a line end.
pub open spec fn bulk_reply(s: Seq<u8>) -> Seq<u8> {
    seq![36u8] + decimal(s.len()) + crlf() + s + crlf()
}

/// The null bulk string, `$-1` and a line end.
pub open spec fn null_reply() -> Seq<u8> {
    seq![36u8, 45u8, 49u8, 13u8, 10u8]
}

/// The bulk strings of `items`, one after another.
pub open spec fn bulks(items: Seq<Seq<u8>>) -> Seq<u8>
    decreases items.len(),
{
    if items.len() == 0 {
        Seq::empty()
    } else {
        bulk_reply(items[0]) + bulks(items.drop_first())
    }
}

/// `*<n>`, a line end, and the `n` bulk strings.
pub open spec fn array_reply(items: Seq<Seq<u8>>) -> Seq<u8> {
    seq![42u8] + decimal(items.len()) + crlf() + bulks(items)
}

/// Appending one more bulk string at the end of a run of them.
pub proof fn lemma_bulks_push(items: Seq<Seq<u8>>, x: Seq<u8>)
    ensures
        bulks(items.push(x)) == bulks(items) + bulk_reply(x),
    decreases items.len(),
{
    if items.len() == 0 {
        assert(items.push(x).drop_first() =~= Seq::<Seq<u8>>::empty());
        assert(items.push(x)[0] == x);
        assert(bulks(Seq::<Seq<u8>>::empty()) == Seq::<u8>::empty());
        assert(bulks(items) == Seq::<u8>::empty());
        assert(bulks(items.push(x)) =~= bulks(items) + bulk_reply(x));
    } else {
        assert(items.push(x).drop_first() =~= items.drop_first().push(x));
        lemma_bulks_push(items.drop_first(), x);
        assert(bulks(items.push(x)) =~= bulk_reply(items[0]) + (bulks(items.drop_first())
            + bulk_reply(x)));
    }
}

/// The bytes of an ASCII string literal.
pub fn literal(s: &str) -> (r: &[u8])
    requires
        vstd::utf8::is_ascii_chars(s@),
    ensures
        r@ == ascii(s@),
{
    proof {
        vstd::string::is_ascii_spec_bytes(s);
    }
    let r = s.as_bytes();
    assert(r@ =~= ascii(s@));
    r
}

/// A response buffer that replies are appended to.
pub struct RespWriter {
    pub buffer: Vec<u8>,
}

impl RespWriter {
    /// An empty writer.
    pub fn new() -> (r: Self)
        ensures
            r.buffer@ == Seq::<u8>::empty(),
    {
        RespWriter { buffer: Vec::with_capacity(DEFAULT_BUFFER_SIZE) }
    }

    fn put_crlf(&mut self)
        ensures
            final(self).buffer@ == old(self).buffer@ + crlf(),
    {
        self.buffer.push(13);
        self.buffer.push(10);
        assert(self.buffer@ =~= old(self).buffer@ + crlf());
    }

    fn put(&mut self, s: &[u8])
        ensures
            final(self).buffer@ == old(self).buffer@ + s@,
    {
        self.buffer.extend_from_slice(s);
    }

    /// Appends the decimal digits of `n`.
    pub fn write_u64(&mut self, n: u64)
        ensures
            final(self).buffer@ == old(self).buffer@ + decimal(n as nat),
        decreases n,
    {
        if n >= 10 {
            self.write_u64(n / 10);
        }
        self.buffer.push(48 + (n % 10) as u8);
        assert(self.buffer@ =~= old(self).buffer@ + decimal(n as nat));
    }

    /// Appends `+<s>` and a line end.
    pub fn write_simple_string(&mut self, s: &[u8])
        ensures
            final(self).buffer@ == old(self).buffer@ + simple_reply(s@),
    {
        self.buffer.push(43);
        self.put(s);
        self.put_crlf();
        assert(self.buffer@ =~= old(self).buffer@ + simple_reply(s@));
    }

    /// Appends a bulk string holding `s`.
    pub fn write_bulk_string(&mut self, s: &[u8])
        ensures
            final(self).buffer@ == old(self).buffer@ + bulk_reply(s@),
    {
        self.buffer.push(36);
        self.write_u64(s.len() as u64);
        self.put_crlf();
        self.put(s);
        self.put_crlf();
        assert(self.buffer@ =~= old(self).buffer@ + bulk_reply(s@));
    }

    /// Appends the null bulk string.
    pub fn write_null(&mut self)
        ensures
            final(self).buffer@ == old(self).buffer@ + null_reply(),
    {
        self.buffer.push(36);
        self.buffer.push(45);
        self.buffer.push(49);
        self.put_crlf();
        assert(self.buffer@ =~= old(self).buffer@ + null_reply());
    }

    /// Appends `:<i>` and a line end.
    pub fn write_integer(&mut self, i: usize)
        ensures
            final(self).buffer@ == old(self).buffer@ + integer_reply(i as nat),
    {
        self.buffer.push(58);
        self.write_u64(i as u64);
        self.put_crlf();
        assert(self.buffer@ =~= old(self).buffer@ + integer_reply(i as nat));
    }

    /// Appends `-ERR <s>` and a line end.
    pub fn write_error(&mut self, s: &[u8])
        ensures
            final(self).buffer@ == old(self).buffer@ + error_reply(s@),
    {
        self.buffer.push(45);
        self.buffer.push(69);
        self.buffer.push(82);
        self.buffer.push(82);
        self.buffer.push(32);
        self.put(s);
        self.put_crlf();
        assert(self.buffer@ =~= old(self).buffer@ + error_reply(s@));
    }

    /// Appends an array of bulk strings.
    pub fn write_array(&mut self, arr: &[Bytes])
        ensures
            final(self).buffer@ == old(self).buffer@ + array_reply(keys_view(arr@)),
    {
        self.buffer.push(42);
        self.write_u64(arr.len() as u64);
        self.put_crlf();
        let ghost head = self.buffer@;
        let mut i: usize = 0;
        while i < arr.len()
            invariant
                i <= arr@.len(),
                self.buffer@ == head + bulks(keys_view(arr@).subrange(0, i as int)),
            decreases arr@.len() - i,
        {
            let item: &[u8] = arr[i].deref();
            self.write_bulk_string(item);
            proof {
                let ks = keys_view(arr@);
                assert(ks.subrange(0, i as int + 1) =~= ks.subrange(0, i as int).push(ks[i as int]));
                lemma_bulks_push(ks.subrange(0, i as int), ks[i as int]);
                assert(self.buffer@ =~= head + bulks(ks.subrange(0, i as int + 1)));
            }
            i += 1;
        }
        assert(keys_view(arr@).subrange(0, arr@.len() as int) =~= keys_view(arr@));
        assert(self.buffer@ =~= old(self).buffer@ + array_reply(keys_view(arr@)));
    }

    /// Appends bytes as they are.
    pub fn write_raw(&mut self, s: &[u8])
        ensures
            final(self).buffer@ == old(self).buffer@ + s@,
    {
        self.put(s);
    }

    /// Whether the buffer holds at least the flush threshold.
    pub fn should_flush(&self) -> (r: bool)
        ensures
            r == (self.buffer@.len() >= FLUSH_THRESHOLD),
    {
        self.buffer.len() >= FLUSH_THRESHOLD
    }

    /// The bytes waiting to be sent.
    pub fn as_bytes(&self) -> (r: &[u8])
        ensures
            r@ == self.buffer@,
    {
        self.buffer.as_slice()
    }

    /// Forgets the bytes once they were sent.
    pub fn clear(&mut self)
        ensures
            final(self).buffer@ == Seq::<u8>::empty(),
    {
        self.buffer.clear();
    }
}


/// An ASCII decimal digit.
pub open spec fn is_digit(b: u8) -> bool {
    48 <= b <= 57
}

/// The first position at or after `p` that holds no digit (or the end).
pub open spec fn digits_end(buf: Seq<u8>, p: int) -> int
    decreases buf.len() - p,
{
    if p < 0 || p >= buf.len() || !is_digit(buf[p]) {
        p
    } else {
        digits_end(buf, p + 1)
    }
}

/// The number that the digits in `buf[p..q]` spell.
pub open spec fn digits_value(buf: Seq<u8>, p: int, q: int) -> int
    decreases q - p,
{
    if q <= p {
        0
    } else {
        digits_value(buf, p, q - 1) * 10 + (buf[q - 1] as int - 48)
    }
}

/// What reading one part of a request yields.
pub enum Lexed<T> {
    /// The bytes break the grammar.
    Invalid,
    /// The bytes so far may still become a request.
    Incomplete,
    /// The part, and the position just after it.
    Done(T, int),
}

/// What the parser makes of the bytes from a position on.
pub enum ParseOutcome {
    Invalid,
    Incomplete,
    /// The arguments of a request, and the position just after it.
    Complete(Seq<Seq<u8>>, int),
}

/// A decimal length at `p`, ended by a line end. A value beyond the largest
/// `usize` breaks the grammar.
pub open spec fn number_at(buf: Seq<u8>, p: int) -> Lexed<nat> {
    let q = digits_end(buf, p);
    if digits_value(buf, p, q) > usize::MAX {
        Lexed::Invalid
    } else if q >= buf.len() {
        Lexed::Incomplete
    } else if buf[q] != 13 {
        Lexed::Invalid
    } else if q + 1 >= buf.len() {
        Lexed::Incomplete
    } else if buf[q + 1] != 10 {
        Lexed::Invalid
    } else {
        Lexed::Done(digits_value(buf, p, q) as nat, q + 2)
    }
}

/// A bulk string at `p`: `$`, its length, a line end, the bytes, a line end.
pub open spec fn bulk_at(buf: Seq<u8>, p: int) -> Lexed<Seq<u8>> {
    if p >= buf.len() {
        Lexed::Incomplete
    } else if buf[p] != 36 {
        Lexed::Invalid
    } else {
        match number_at(buf, p + 1) {
            Lexed::Invalid => Lexed::Invalid,
            Lexed::Incomplete => Lexed::Incomplete,
            Lexed::Done(n, q) => if q + n + 2 > buf.len() {
                Lexed::Incomplete
            } else if buf[q + n] != 13 || buf[q + n + 1] != 10 {
                Lexed::Invalid
            } else {
                Lexed::Done(buf.subrange(q, q + n), q + n + 2)
            },
        }
    }
}

/// `remaining` more bulk strings from `p` on, after the arguments `acc`.
pub open spec fn bulks_from(buf: Seq<u8>, p: int, remaining: nat, acc: Seq<Seq<u8>>) -> ParseOutcome
    decreases remaining,
{
    if remaining == 0 {
        ParseOutcome::Complete(acc, p)
    } else {
        match bulk_at(buf, p) {
            Lexed::Invalid => ParseOutcome::Invalid,
            Lexed::Incomplete => ParseOutcome::Incomplete,
            Lexed::Done(item, next) => bulks_from(buf, next, (remaining - 1) as nat, acc.push(item)),
        }
    }
}

/// A request at `p`: `*`, the argument count, a line end, the arguments.
pub open spec fn request_at(buf: Seq<u8>, p: int) -> ParseOutcome {
    if p >= buf.len() {
        ParseOutcome::Incomplete
    } else if buf[p] != 42 {
        ParseOutcome::Invalid
    } else {
        match number_at(buf, p + 1) {
            Lexed::Invalid => ParseOutcome::Invalid,
            Lexed::Incomplete => ParseOutcome::Incomplete,
            Lexed::Done(n, q) => bulks_from(buf, q, n, Seq::empty()),
        }
    }
}

/// Over a run of digits, the number only grows as digits are added.
proof fn lemma_digits_grow(buf: Seq<u8>, p: int, i: int, q: int)
    requires
        0 <= p <= i <= q <= buf.len(),
        forall|j: int| p <= j < q ==> is_digit(#[trigger] buf[j]),
    ensures
        0 <= digits_value(buf, p, i) <= digits_value(buf, p, q),
    decreases q - i,
{
    if i < q {
        lemma_digits_grow(buf, p, i, q - 1);
        lemma_digits_nonneg(buf, p, q - 1);
    } else {
        lemma_digits_nonneg(buf, p, q);
    }
}

pub proof fn lemma_digits_nonneg(buf: Seq<u8>, p: int, q: int)
    requires
        0 <= p <= q <= buf.len(),
        forall|j: int| p <= j < q ==> is_digit(#[trigger] buf[j]),
    ensures
        digits_value(buf, p, q) >= 0,
    decreases q - p,
{
    if q > p {
        lemma_digits_nonneg(buf, p, q - 1);
    }
}

/// What scanning a number or a bulk string found.
pub enum Scan {
    Invalid,
    Incomplete,
    /// A value and the position after it.
    Found(usize, usize),
}

/// Reads the decimal length at `p`, as `number_at` describes.
fn read_number(buf: &[u8], p: usize) -> (r: Scan)
    requires
        p <= buf@.len(),
    ensures
        match number_at(buf@, p as int) {
            Lexed::Invalid => r is Invalid,
            Lexed::Incomplete => r is Incomplete,
            Lexed::Done(n, q) => r matches Scan::Found(a, b) && a == n && b == q,
        },
        r matches Scan::Found(_, q) ==> q <= buf@.len(),
{
    let len = buf.len();
    let mut cursor = p;
    let mut v: usize = 0;
    loop
        invariant
            p <= cursor <= len,
            len == buf@.len(),
            v == digits_value(buf@, p as int, cursor as int),
            forall|j: int| p <= j < cursor ==> is_digit(#[trigger] buf@[j]),
            digits_end(buf@, p as int) == digits_end(buf@, cursor as int),
        ensures
            cursor < len,
            !is_digit(buf@[cursor as int]),
            v == digits_value(buf@, p as int, cursor as int),
            digits_end(buf@, p as int) == cursor,
        decreases len - cursor,
    {
        if cursor >= len {
            return Scan::Incomplete;
        }
        let b = buf[cursor];
        if b < 48 || b > 57 {
            break;
        }
        let d = (b - 48) as usize;
        if v > (usize::MAX - d) / 10 {
            proof {
                assert(v * 10 + d > usize::MAX) by (nonlinear_arith)
                    requires
                        v > (usize::MAX - d) / 10,
                        d <= 9,
                ;
                assert(digits_value(buf@, p as int, cursor + 1) == v * 10 + d);
                let q2 = digits_end_bound(buf@, cursor + 1);
                let q = digits_end_bound(buf@, p as int);
                assert(q == q2);
                lemma_digits_grow(buf@, p as int, cursor + 1, q);
            }
            return Scan::Invalid;
        }
        proof {
            assert(v * 10 + d <= usize::MAX) by (nonlinear_arith)
                requires
                    v <= (usize::MAX - d) / 10,
                    d <= 9,
            ;
        }
        v = v * 10 + d;
        cursor += 1;
    }
    if buf[cursor] != 13 {
        return Scan::Invalid;
    }
    if cursor + 1 >= len {
        return Scan::Incomplete;
    }
    if buf[cursor + 1] != 10 {
        return Scan::Invalid;
    }
    Scan::Found(v, cursor + 2)
}

/// The end of the run of digits that `p` lies in, with the facts that
/// `lemma_digits_grow` needs about it.
proof fn digits_end_bound(buf: Seq<u8>, p: int) -> (q: int)
    requires
        0 <= p <= buf.len(),
    ensures
        q == digits_end(buf, p),
        p <= q <= buf.len(),
        forall|j: int| p <= j < q ==> is_digit(#[trigger] buf[j]),
    decreases buf.len() - p,
{
    if p >= buf.len() || !is_digit(buf[p]) {
        p
    } else {
        digits_end_bound(buf, p + 1)
    }
}

/// Reads the bulk string at `p`, as `bulk_at` describes: its bytes are
/// `buf[a..b]` for a result `Found(a, b)`, and the string ends at `b + 2`.
fn read_bulk(buf: &[u8], p: usize) -> (r: Scan)
    requires
        p <= buf@.len(),
    ensures
        match bulk_at(buf@, p as int) {
            Lexed::Invalid => r is Invalid,
            Lexed::Incomplete => r is Incomplete,
            Lexed::Done(item, next) => r matches Scan::Found(a, b) && a <= b && b + 2 == next
                && next <= buf@.len() && item == buf@.subrange(a as int, b as int),
        },
{
    let len = buf.len();
    if p >= len {
        return Scan::Incomplete;
    }
    if buf[p] != 36 {
        return Scan::Invalid;
    }
    match read_number(buf, p + 1) {
        Scan::Found(n, q) => {
            if n > len - q || len - q - n < 2 {
                return Scan::Incomplete;
            }
            if buf[q + n] != 13 || buf[q + n + 1] != 10 {
                return Scan::Invalid;
            }
            Scan::Found(q, q + n)
        },
        other => other,
    }
}

/// Pending request bytes and the position up to which they were consumed.
pub struct RespParser {
    pub buffer: Vec<u8>,
    pub start: usize,
}

impl RespParser {
    /// The read position lies within the buffer.
    pub open spec fn wf(&self) -> bool {
        self.start <= self.buffer@.len()
    }

    /// The bytes not yet consumed.
    pub open spec fn pending(&self) -> Seq<u8> {
        self.buffer@.subrange(self.start as int, self.buffer@.len() as int)
    }

    /// A parser with nothing buffered.
    pub fn new() -> (r: Self)
        ensures
            r.wf(),
            r.pending() == Seq::<u8>::empty(),
    {
        RespParser { buffer: Vec::with_capacity(DEFAULT_BUFFER_SIZE), start: 0 }
    }

    /// Appends bytes read from the stream after the pending ones.
    pub fn feed(&mut self, data: &[u8])
        requires
            old(self).wf(),
        ensures
            final(self).wf(),
            final(self).pending() == old(self).pending() + data@,
    {
        if self.start > 0 {
            let mut rest: Vec<u8> = Vec::new();
            let mut i = self.start;
            while i < self.buffer.len()
                invariant
                    old(self).start <= i <= self.buffer@.len(),
                    self.buffer@ == old(self).buffer@,
                    self.start == old(self).start,
                    rest@ == self.buffer@.subrange(self.start as int, i as int),
                decreases self.buffer@.len() - i,
            {
                rest.push(self.buffer[i]);
                assert(rest@ =~= self.buffer@.subrange(self.start as int, i + 1));
                i += 1;
            }
            self.buffer = rest;
            self.start = 0;
        }
        self.buffer.extend_from_slice(data);
        assert(self.pending() =~= old(self).pending() + data@);
    }

    /// Whether bytes are pending.
    pub fn has_buffered_data(&self) -> (r: bool)
        requires
            self.wf(),
        ensures
            r == (self.pending().len() > 0),
    {
        self.buffer.len() > self.start
    }

    /// Parses the request at the read position. On success the arguments
    /// are copied out and exactly the request's bytes are consumed; when the
    /// bytes may still become a request, or break the grammar, nothing is
    /// consumed.
    pub fn try_parse(&mut self) -> (r: Result<Option<Vec<Bytes>>, ()>)
        requires
            old(self).wf(),
        ensures
            final(self).wf(),
            final(self).buffer@ == old(self).buffer@,
            match request_at(old(self).buffer@, old(self).start as int) {
                ParseOutcome::Invalid => r is Err && final(self).start == old(self).start,
                ParseOutcome::Incomplete => (r matches Ok(None)) && final(self).start == old(self).start,
                ParseOutcome::Complete(argv, end) => r matches Ok(Some(v)) && keys_view(v@)
                    == argv && final(self).start == end,
            },
    {
        let buf = self.buffer.as_slice();
        let len = buf.len();
        let p = self.start;
        if p >= len {
            return Ok(None);
        }
        if buf[p] != 42 {
            return Err(());
        }
        let (count, first) = match read_number(buf, p + 1) {
            Scan::Found(n, q) => (n, q),
            Scan::Invalid => {
                return Err(());
            },
            Scan::Incomplete => {
                return Ok(None);
            },
        };
        let mut result: Vec<Bytes> = Vec::new();
        assert(keys_view(result@) =~= Seq::<Seq<u8>>::empty());
        let mut cursor = first;
        let mut i: usize = 0;
        while i < count
            invariant
                buf@ == self.buffer@,
                self.buffer@ == old(self).buffer@,
                self.start == old(self).start,
                p == self.start,
                p <= len,
                len == buf@.len(),
                i <= count,
                cursor <= len,
                request_at(buf@, p as int) == bulks_from(
                    buf@,
                    cursor as int,
                    (count - i) as nat,
                    keys_view(result@),
                ),
            decreases count - i,
        {
            match read_bulk(buf, cursor) {
                Scan::Found(a, b) => {
                    let item = Bytes::copy_from_slice(&buf[a..b]);
                    let ghost prev = result@;
                    result.push(item);
                    proof {
                        let ghost it = buf@.subrange(a as int, b as int);
                        assert(bulk_at(buf@, cursor as int) == Lexed::Done(it, b + 2));
                        assert(keys_view(result@) =~= keys_view(prev).push(it));
                        assert(bulks_from(buf@, cursor as int, (count - i) as nat, keys_view(prev))
                            == bulks_from(buf@, b + 2, (count - i - 1) as nat, keys_view(result@)));
                    }
                    cursor = b + 2;
                },
                Scan::Invalid => {
                    assert(bulks_from(buf@, cursor as int, (count - i) as nat, keys_view(result@))
                        == ParseOutcome::Invalid);
                    return Err(());
                },
                Scan::Incomplete => {
                    assert(bulks_from(buf@, cursor as int, (count - i) as nat, keys_view(result@))
                        == ParseOutcome::Incomplete);
                    return Ok(None);
                },
            }
            i += 1;
        }
        self.start = cursor;
        Ok(Some(result))
    }
}


/// Whether the connection handler sends what it has after a command: when
/// the writer reached the flush threshold, when a batch is full, or when no
/// further request bytes are waiting.
pub fn flush_due(writer: &RespWriter, parser: &RespParser, batch_count: usize, batch_size: usize) -> (r: bool)
    requires
        parser.wf(),
    ensures
        r == (writer.buffer@.len() >= FLUSH_THRESHOLD || batch_count >= batch_size
            || parser.pending().len() == 0),
{
    writer.should_flush() || batch_count >= batch_size || !parser.has_buffered_data()
}

} // verus!
