//! Cutting a byte stream into messages: a message ends at two line feeds in a row.
use vstd::prelude::*;
use vstd::utf8::*;
use crate::outside::{from_utf8_lossy, utf8_lossy};
use crate::text::occurs_at;

verus! {

/// `needle` stands in `hay` at `at`, and nowhere before.
pub open spec fn first_at(hay: Seq<u8>, needle: Seq<u8>, at: int) -> bool {
    occurs_at(hay, needle, at) && forall|i: int| 0 <= i < at ==> !occurs_at(hay, needle, i)
}

/// Whether `needle` stands in `haystack` at `at`.
fn stands_at(haystack: &[u8], needle: &[u8], at: usize) -> (found: bool)
    requires
        at + needle.len() <= haystack.len(),
    ensures
        found == occurs_at(haystack@, needle@, at as int),
{
    let mut k: usize = 0;
    while k < needle.len()
        invariant
            at + needle.len() <= haystack.len(),
            k <= needle.len(),
            forall|j: int| 0 <= j < k ==> haystack@[at + j] == needle@[j],
        decreases needle.len() - k,
    {
        if haystack[at + k] != needle[k] {
            assert(haystack@.subrange(at as int, at + needle@.len())[k as int]
                != needle@[k as int]);
            return false;
        }
        k = k + 1;
    }
    assert(haystack@.subrange(at as int, at + needle@.len()) =~= needle@);
    true
}

/// Where `needle` stands first in `haystack`. An empty `needle` is not found.
pub fn find_subslice(haystack: &[u8], needle: &[u8]) -> (at: Option<usize>)
    ensures
        match at {
            Some(p) => needle@.len() > 0 && first_at(haystack@, needle@, p as int),
            None => needle@.len() == 0 || forall|i: int| !occurs_at(haystack@, needle@, i),
        },
        at matches Some(p) ==> p + needle@.len() <= haystack@.len() && forall|j: int|
            0 <= j < needle@.len() ==> haystack@[p + j] == #[trigger] needle@[j],
        at matches Some(p) ==> forall|i: int|
            0 <= i < p ==> #[trigger] haystack@.subrange(i, i + needle@.len()) != needle@,
        at is None && needle@.len() > 0 ==> forall|i: int|
            0 <= i <= haystack@.len() - needle@.len() ==> #[trigger] haystack@.subrange(
                i,
                i + needle@.len(),
            ) != needle@,
{
    if needle.len() == 0 || haystack.len() < needle.len() {
        return None;
    }
    let last: usize = haystack.len() - needle.len();
    let mut at: usize = 0;
    loop
        invariant
            needle@.len() > 0,
            last == haystack@.len() - needle@.len(),
            at <= last,
            forall|j: int| 0 <= j < at ==> !occurs_at(haystack@, needle@, j),
        decreases last - at,
    {
        if stands_at(haystack, needle, at) {
            assert forall|i: int| 0 <= i < at implies #[trigger] haystack@.subrange(
                i,
                i + needle@.len(),
            ) != needle@ by {
                assert(!occurs_at(haystack@, needle@, i));
            }
            return Some(at);
        }
        if at == last {
            assert forall|i: int| 0 <= i <= last implies #[trigger] haystack@.subrange(
                i,
                i + needle@.len(),
            ) != needle@ by {
                assert(!occurs_at(haystack@, needle@, i));
            }
            return None;
        }
        at = at + 1;
    }
}

/// Two line feeds.
pub open spec fn message_end() -> Seq<u8> {
    seq![10u8, 10u8]
}

/// Where the first message of some bytes ends: the place of its two line feeds.
pub open spec fn first_end(bytes: Seq<u8>) -> Option<int> {
    if exists|p: int| first_at(bytes, message_end(), p) {
        Some(choose|p: int| first_at(bytes, message_end(), p))
    } else {
        None
    }
}

/// `first_end` is the one place where the first message ends.
proof fn first_end_is(bytes: Seq<u8>, p: int)
    ensures
        first_at(bytes, message_end(), p) ==> first_end(bytes) == Some(p),
        first_end(bytes) == Some(p) ==> first_at(bytes, message_end(), p) && p + 2 <= bytes.len()
            && bytes[p] == 10 && bytes[p + 1] == 10,
{
    if first_at(bytes, message_end(), p) {
        let q = choose|q: int| first_at(bytes, message_end(), q);
        assert(p == q) by {
            if p < q {
                assert(!occurs_at(bytes, message_end(), p));
            }
            if q < p {
                assert(!occurs_at(bytes, message_end(), q));
            }
        }
    }
    if first_end(bytes) == Some(p) {
        assert(first_at(bytes, message_end(), p));
        assert(bytes.subrange(p, p + 2)[0] == bytes[p]);
        assert(bytes.subrange(p, p + 2)[1] == bytes[p + 1]);
    }
}

/// The complete messages at the start of some bytes, without their ends.
pub open spec fn messages(bytes: Seq<u8>) -> Seq<Seq<u8>>
    decreases bytes.len(),
    when first_end(bytes) matches Some(p) ==> 0 <= p && p + 2 <= bytes.len()
{
    match first_end(bytes) {
        Some(p) => seq![bytes.take(p)] + messages(bytes.skip(p + 2)),
        None => Seq::empty(),
    }
}

/// What follows the complete messages: the start of a message that has not ended.
pub open spec fn unfinished(bytes: Seq<u8>) -> Seq<u8>
    decreases bytes.len(),
    when first_end(bytes) matches Some(p) ==> 0 <= p && p + 2 <= bytes.len()
{
    match first_end(bytes) {
        Some(p) => unfinished(bytes.skip(p + 2)),
        None => bytes,
    }
}

/// Bytes that come later do not move the end of the first message.
pub proof fn end_stays(a: Seq<u8>, b: Seq<u8>)
    requires
        first_end(a) is Some,
    ensures
        first_end(a + b) == first_end(a),
{
    let p = first_end(a)->0;
    first_end_is(a, p);
    assert((a + b).subrange(p, p + 2) =~= a.subrange(p, p + 2));
    assert forall|i: int| 0 <= i < p implies !occurs_at(a + b, message_end(), i) by {
        assert((a + b).subrange(i, i + 2) =~= a.subrange(i, i + 2));
        assert(!occurs_at(a, message_end(), i));
    }
    first_end_is(a + b, p);
}

/// The cut into messages does not depend on how the bytes arrive: taking `a` apart and going on
/// with what is left of it and `b` gives the messages, and the rest, of `a` and `b` together.
pub proof fn framing_ignores_chunks(a: Seq<u8>, b: Seq<u8>)
    ensures
        messages(a + b) == messages(a) + messages(unfinished(a) + b),
        unfinished(a + b) == unfinished(unfinished(a) + b),
    decreases a.len(),
{
    cut_is_inside(a);
    cut_is_inside(a + b);
    match first_end(a) {
        Some(p) => {
            end_stays(a, b);
            first_end_is(a, p);
            framing_ignores_chunks(a.skip(p + 2), b);
            assert((a + b).skip(p + 2) =~= a.skip(p + 2) + b);
            assert((a + b).take(p) =~= a.take(p));
            assert(messages(a + b) =~= messages(a) + messages(unfinished(a) + b));
        },
        None => {
            assert(messages(a) + messages(a + b) =~= messages(a + b));
        },
    }
}

/// The end of the first message lies inside the bytes.
pub proof fn cut_is_inside(bytes: Seq<u8>)
    ensures
        first_end(bytes) matches Some(p) ==> 0 <= p && p + 2 <= bytes.len(),
{
    match first_end(bytes) {
        Some(p) => {
            first_end_is(bytes, p);
        },
        None => {},
    }
}

/// No cut falls inside a character: where the bytes are UTF-8, every message is, and so is the
/// rest.
pub proof fn messages_keep_characters(bytes: Seq<u8>)
    requires
        valid_utf8(bytes),
    ensures
        forall|i: int| 0 <= i < messages(bytes).len() ==> valid_utf8(#[trigger] messages(bytes)[i]),
        valid_utf8(unfinished(bytes)),
    decreases bytes.len(),
{
    cut_is_inside(bytes);
    match first_end(bytes) {
        Some(p) => {
            first_end_is(bytes, p);
            is_char_boundary_iff_not_is_continuation_byte(bytes, p);
            valid_utf8_split(bytes, p);
            assert(bytes.take(p) =~= bytes.subrange(0, p));
            let rest = bytes.subrange(p, bytes.len() as int);
            assert(rest[0] == 10 && rest[1] == 10);
            let tail = pop_first_scalar(rest);
            assert(valid_utf8(tail));
            assert(tail[0] == 10);
            assert(pop_first_scalar(tail) =~= bytes.skip(p + 2));
            messages_keep_characters(bytes.skip(p + 2));
            let later = messages(bytes.skip(p + 2));
            assert forall|i: int| 0 <= i < messages(bytes).len() implies valid_utf8(
                #[trigger] messages(bytes)[i],
            ) by {
                if i > 0 {
                    assert(messages(bytes)[i] == later[i - 1]);
                }
            }
        },
        None => {},
    }
}

/// Messages put together again, each with its end.
pub open spec fn put_together(parts: Seq<Seq<u8>>) -> Seq<u8>
    decreases parts.len(),
{
    if parts.len() == 0 {
        Seq::empty()
    } else {
        parts[0] + seq![10u8, 10u8] + put_together(parts.skip(1))
    }
}

/// No two line feeds stand next to each other.
pub open spec fn has_no_end(bytes: Seq<u8>) -> bool {
    forall|i: int, j: int|
        0 <= i < bytes.len() - 1 && j == i + 1 ==> !(#[trigger] bytes[i] == 10
            && #[trigger] bytes[j] == 10)
}

/// Up to the first end, with the first of its line feeds, there is none.
proof fn no_end_before_the_first(bytes: Seq<u8>, p: int)
    requires
        first_end(bytes) == Some(p),
    ensures
        has_no_end(bytes.take(p).push(10u8)),
{
    first_end_is(bytes, p);
    let head = bytes.take(p).push(10u8);
    assert forall|i: int, j: int| 0 <= i < head.len() - 1 && j == i + 1 implies !(
    #[trigger] head[i] == 10 && #[trigger] head[j] == 10) by {
        assert(!occurs_at(bytes, message_end(), i));
        assert(head[i] == bytes[i] && head[j] == bytes[j]);
        if bytes[i] == 10 && bytes[j] == 10 {
            assert(bytes.subrange(i, i + 2) =~= message_end());
        }
    }
}

/// Bytes without a first end have none.
proof fn no_end_at_all(bytes: Seq<u8>)
    requires
        first_end(bytes) is None,
    ensures
        has_no_end(bytes),
{
    assert forall|i: int, j: int| 0 <= i < bytes.len() - 1 && j == i + 1 implies !(
    #[trigger] bytes[i] == 10 && #[trigger] bytes[j] == 10) by {
        if bytes[i] == 10 && bytes[j] == 10 {
            assert(bytes.subrange(i, i + 2) =~= message_end());
            let p = earliest_end(bytes, i);
            first_end_is(bytes, p);
        }
    }
}

/// A message ends at `p` first exactly where two line feeds stand at `p`, and none before it.
pub proof fn first_end_is_the_earliest(bytes: Seq<u8>, p: int)
    ensures
        first_end(bytes) == Some(p) <==> 0 <= p && p + 1 < bytes.len() && bytes[p] == 10 && bytes[p
            + 1] == 10 && has_no_end(bytes.take(p + 1)),
        first_end(bytes) is None <==> has_no_end(bytes),
{
    if first_end(bytes) == Some(p) {
        first_end_is(bytes, p);
        no_end_before_the_first(bytes, p);
        assert(bytes.take(p + 1) =~= bytes.take(p).push(10u8));
    }
    if 0 <= p && p + 1 < bytes.len() && bytes[p] == 10 && bytes[p + 1] == 10 && has_no_end(
        bytes.take(p + 1),
    ) {
        assert(bytes.subrange(p, p + 2) =~= message_end());
        assert forall|i: int| 0 <= i < p implies !occurs_at(bytes, message_end(), i) by {
            if occurs_at(bytes, message_end(), i) {
                assert(bytes.subrange(i, i + 2)[0] == bytes[i]);
                assert(bytes.subrange(i, i + 2)[1] == bytes[i + 1]);
                assert(bytes.take(p + 1)[i] == 10 && bytes.take(p + 1)[i + 1] == 10);
            }
        }
        first_end_is(bytes, p);
    }
    if first_end(bytes) is None {
        no_end_at_all(bytes);
    }
    if has_no_end(bytes) && first_end(bytes) is Some {
        let q = first_end(bytes)->0;
        first_end_is(bytes, q);
        assert(bytes[q] == 10 && bytes[q + 1] == 10);
    }
}

proof fn grouping(a: Seq<u8>, b: Seq<u8>, c: Seq<u8>)
    ensures
        a + (b + c) == a + b + c,
{
    assert(a + (b + c) =~= a + b + c);
}

/// Cutting loses nothing: the messages, each followed by two line feeds, and the rest after them
/// are the bytes.
pub proof fn messages_make_up_the_bytes(bytes: Seq<u8>)
    ensures
        bytes == put_together(messages(bytes)) + unfinished(bytes),
    decreases bytes.len(),
{
    cut_is_inside(bytes);
    match first_end(bytes) {
        Some(p) => {
            first_end_is(bytes, p);
            let rest = bytes.skip(p + 2);
            let head = bytes.take(p);
            messages_make_up_the_bytes(rest);
            let all = messages(bytes);
            let end = seq![10u8, 10u8];
            assert(all == seq![head] + messages(rest));
            assert(all.skip(1) =~= messages(rest));
            assert(all[0] == head);
            assert(put_together(all) == head + end + put_together(messages(rest)));
            assert(unfinished(bytes) == unfinished(rest));
            assert(bytes =~= head + end + rest);
            grouping(head + end, put_together(messages(rest)), unfinished(rest));
        },
        None => {
            assert(put_together(messages(bytes)) + unfinished(bytes) =~= bytes);
        },
    }
}

/// Every cut is the earliest there is: neither in the rest, nor in a message with the first of
/// its line feeds, do two line feeds stand next to each other.
pub proof fn every_end_is_a_cut(bytes: Seq<u8>)
    ensures
        has_no_end(unfinished(bytes)),
        forall|i: int|
            0 <= i < messages(bytes).len() ==> has_no_end(
                (#[trigger] messages(bytes)[i]).push(10u8),
            ),
    decreases bytes.len(),
{
    cut_is_inside(bytes);
    match first_end(bytes) {
        Some(p) => {
            let rest = bytes.skip(p + 2);
            no_end_before_the_first(bytes, p);
            every_end_is_a_cut(rest);
            let all = messages(bytes);
            assert forall|i: int| 0 <= i < all.len() implies has_no_end(
                (#[trigger] all[i]).push(10u8),
            ) by {
                if i > 0 {
                    assert(all[i] == messages(rest)[i - 1]);
                }
            }
        },
        None => {
            no_end_at_all(bytes);
        },
    }
}

/// Where there is an end, there is an earliest one.
proof fn earliest_end(bytes: Seq<u8>, at: int) -> (p: int)
    requires
        occurs_at(bytes, message_end(), at),
    ensures
        first_at(bytes, message_end(), p),
    decreases at,
{
    if first_at(bytes, message_end(), at) {
        at
    } else {
        let i = choose|i: int| 0 <= i < at && occurs_at(bytes, message_end(), i);
        earliest_end(bytes, i)
    }
}

/// Bytes that are UTF-8 say what they encode; other bytes what the lossy reading gives.
pub proof fn text_of_reads_utf8(bytes: Seq<u8>)
    ensures
        valid_utf8(bytes) ==> text_of(bytes) == decode_utf8(bytes),
        !valid_utf8(bytes) ==> text_of(bytes) == utf8_lossy(bytes),
{
}

/// The text of a message: what its bytes say as UTF-8, with U+FFFD in place of what is not.
pub open spec fn text_of(bytes: Seq<u8>) -> Seq<char> {
    if valid_utf8(bytes) {
        decode_utf8(bytes)
    } else {
        utf8_lossy(bytes)
    }
}

/// The text of a message.
pub fn message_text(bytes: &Vec<u8>) -> (text: String)
    ensures
        text@ == text_of(bytes@),
{
    from_utf8_lossy(bytes.as_slice())
}

/// Bytes that have arrived and have not been cut off as messages yet.
pub struct MessageBuffer {
    bytes: Vec<u8>,
}

impl View for MessageBuffer {
    type V = Seq<u8>;

    closed spec fn view(&self) -> Seq<u8> {
        self.bytes@
    }
}

impl MessageBuffer {
    /// No bytes.
    pub fn new() -> (buffer: MessageBuffer)
        ensures
            buffer@ == Seq::<u8>::empty(),
    {
        MessageBuffer { bytes: Vec::new() }
    }

    /// Whether no bytes wait.
    pub fn is_empty(&self) -> (empty: bool)
        ensures
            empty == (self@.len() == 0),
    {
        self.bytes.len() == 0
    }

    /// Adds bytes that have arrived.
    pub fn extend(&mut self, chunk: &Vec<u8>)
        ensures
            final(self)@ == old(self)@ + chunk@,
    {
        let mut i: usize = 0;
        assert(chunk@.take(0) =~= Seq::<u8>::empty());
        assert(self@ + chunk@.take(0) =~= self@);
        while i < chunk.len()
            invariant
                i <= chunk.len(),
                self@ == old(self)@ + chunk@.take(i as int),
            decreases chunk.len() - i,
        {
            self.bytes.push(chunk[i]);
            i = i + 1;
            assert(self@ =~= old(self)@ + chunk@.take(i as int));
        }
        assert(chunk@.take(i as int) =~= chunk@);
    }

    /// Cuts the first complete message off, without its end.
    pub fn next_message(&mut self) -> (message: Option<Vec<u8>>)
        ensures
            match message {
                Some(m) => first_end(old(self)@) matches Some(p) && 0 <= p && p + 2
                    <= old(self)@.len() && m@ == old(self)@.take(p) && final(self)@ == old(
                    self,
                )@.skip(p + 2),
                None => first_end(old(self)@) is None && final(self)@ == old(self)@,
            },
    {
        let end: Vec<u8> = vec![10u8, 10u8];
        assert(end@ =~= message_end());
        match find_subslice(self.bytes.as_slice(), end.as_slice()) {
            Some(p) => {
                proof {
                    first_end_is(self@, p as int);
                }
                assert(p + 2 <= self.bytes.len());
                let rest = self.bytes.split_off(p + 2);
                let mut message: Vec<u8> = Vec::new();
                std::mem::swap(&mut message, &mut self.bytes);
                message.truncate(p);
                self.bytes = rest;
                assert(message@ =~= old(self)@.take(p as int));
                assert(self@ =~= old(self)@.skip(p + 2));
                Some(message)
            },
            None => {
                proof {
                    if first_end(self@) is Some {
                        first_end_is(self@, first_end(self@)->0);
                    }
                }
                None
            },
        }
    }

    /// Takes everything that waits.
    pub fn take_all(&mut self) -> (bytes: Vec<u8>)
        ensures
            bytes@ == old(self)@,
            final(self)@ == Seq::<u8>::empty(),
    {
        let mut bytes: Vec<u8> = Vec::new();
        std::mem::swap(&mut bytes, &mut self.bytes);
        bytes
    }
}

} // verus!
