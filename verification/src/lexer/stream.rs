//! The stream of annotated bytes that the scanner reads: an iterator that can
//! look several items ahead before it takes any.

use vstd::prelude::*;

verus! {

/// An input byte with its line and its column.
pub type Item = (u8, usize, usize);

/// The stream of annotated bytes.
pub type Stream = itertools::MultiPeek<std::vec::IntoIter<(u8, usize, usize)>>;

#[verifier::external_type_specification]
#[verifier::external_body]
#[verifier::reject_recursive_types(I)]
pub struct ExMultiPeek<I: Iterator>(itertools::MultiPeek<I>);

/// The items that the stream has not handed out yet, the next one first.
pub uninterp spec fn pending(
    stream: itertools::MultiPeek<std::vec::IntoIter<(u8, usize, usize)>>,
) -> Seq<(u8, usize, usize)>;

/// How many of the pending items `peek` has stepped over since the last
/// `next` or `reset_peek`.
pub uninterp spec fn peeked(
    stream: itertools::MultiPeek<std::vec::IntoIter<(u8, usize, usize)>>,
) -> nat;

/// `itertools::multipeek` makes a stream over the items: all of them are
/// pending, in their order, and none has been peeked at.
#[verifier::external_body]
pub(crate) fn multipeek(items: Vec<Item>) -> (stream: Stream)
    ensures
        pending(stream) == items@,
        peeked(stream) == 0,
{
    itertools::multipeek(items)
}

/// `MultiPeek::peek` returns the pending item behind those already peeked at
/// and steps over it; behind the last item it returns `None` and steps
/// nowhere.  It takes no item out of the stream.
#[verifier::external_body]
pub(crate) fn peek(stream: &mut Stream) -> (item: Option<Item>)
    ensures
        pending(*final(stream)) == pending(*old(stream)),
        peeked(*old(stream)) < pending(*old(stream)).len() ==> item == Some(
            pending(*old(stream))[peeked(*old(stream)) as int],
        ) && peeked(*final(stream)) == peeked(*old(stream)) + 1,
        peeked(*old(stream)) >= pending(*old(stream)).len() ==> item.is_none() && peeked(
            *final(stream),
        ) == peeked(*old(stream)),
{
    stream.peek().copied()
}

/// `MultiPeek::next` takes the first pending item out of the stream and
/// returns it, or returns `None` where nothing is pending.  Peeking starts
/// over at the first pending item.
#[verifier::external_body]
pub(crate) fn next(stream: &mut Stream) -> (item: Option<Item>)
    ensures
        peeked(*final(stream)) == 0,
        pending(*old(stream)).len() > 0 ==> item == Some(pending(*old(stream))[0]) && pending(
            *final(stream),
        ) == pending(*old(stream)).skip(1),
        pending(*old(stream)).len() == 0 ==> item.is_none() && pending(*final(stream)) == pending(
            *old(stream),
        ),
{
    stream.next()
}

/// `MultiPeek::reset_peek` makes peeking start over at the first pending item
/// and takes no item out of the stream.
#[verifier::external_body]
pub(crate) fn reset_peek(stream: &mut Stream)
    ensures
        pending(*final(stream)) == pending(*old(stream)),
        peeked(*final(stream)) == 0,
{
    stream.reset_peek()
}

/// The bytes of the first `n` items.
pub open spec fn front_bytes(items: Seq<Item>, n: int) -> Seq<u8> {
    Seq::new(n as nat, |i: int| items[i].0)
}

/// Takes the next `n` items out of the stream and returns their bytes, or
/// `None` where fewer than `n` are pending (the stream is then empty).
pub(crate) fn take_n(stream: &mut Stream, n: usize) -> (bytes: Option<Vec<u8>>)
    ensures
        peeked(*final(stream)) == 0,
        n <= pending(*old(stream)).len() ==> bytes.is_some() && bytes.unwrap()@ == front_bytes(
            pending(*old(stream)),
            n as int,
        ) && pending(*final(stream)) == pending(*old(stream)).skip(n as int),
        n > pending(*old(stream)).len() ==> bytes.is_none(),
{
    let mut taken: Vec<u8> = Vec::new();
    let mut i: usize = 0;
    reset_peek(stream);
    while i < n
        invariant
            i <= n,
            peeked(*stream) == 0,
            i <= pending(*old(stream)).len(),
            pending(*stream) == pending(*old(stream)).skip(i as int),
            taken@ == front_bytes(pending(*old(stream)), i as int),
        decreases n - i,
    {
        match next(stream) {
            Some((byte, _, _)) => {
                assert(pending(*old(stream)).skip(i as int).skip(1) =~= pending(*old(stream)).skip(
                    i + 1,
                ));
                taken.push(byte);
                assert(taken@ =~= front_bytes(pending(*old(stream)), i + 1));
                i = i + 1;
            },
            None => {
                return None;
            },
        }
    }
    Some(taken)
}

/// Takes the next `n` items out of the stream, or all of them where fewer are pending.
pub(crate) fn advance_by(stream: &mut Stream, n: usize)
    ensures
        peeked(*final(stream)) == 0,
        n <= pending(*old(stream)).len() ==> pending(*final(stream)) == pending(
            *old(stream),
        ).skip(n as int),
{
    let _ = take_n(stream, n);
}

} // verus!
