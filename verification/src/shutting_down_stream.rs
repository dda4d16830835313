//! A stream of request lines that is closed by another one.

use vstd::prelude::*;

verus! {

/// What a stream has to offer at the moment.
#[derive(PartialEq, Eq, Debug)]
pub enum Polled<T> {
    /// An item, or the end of the stream.
    Ready(Option<T>),
    /// Nothing yet.
    Pending,
}

/// A stream, and the one that controls it: once the control stream is closed or has an item, no more
/// items are waited for.
pub struct ShuttingDownStream<St, CSt> {
    pub stream: St,
    pub control_stream: CSt,
}

/// What the controlled stream has to offer: an item of the stream with a flag that tells whether
/// the control stream is closed; its end, if there is no item and the control stream is closed or
/// has an item itself; and nothing yet otherwise.
pub open spec fn combined<T, C>(item: Polled<T>, control: Polled<C>) -> Polled<(T, bool)> {
    match item {
        Polled::Ready(Some(entry)) => Polled::Ready(
            Some((entry, control == Polled::Ready(None::<C>))),
        ),
        _ => if control is Ready {
            Polled::Ready(None)
        } else {
            Polled::Pending
        },
    }
}

impl<St, CSt> ShuttingDownStream<St, CSt> {
    pub fn new(stream: St, control_stream: CSt) -> (controlled: Self)
        ensures
            controlled.stream == stream,
            controlled.control_stream == control_stream,
    {
        ShuttingDownStream { stream, control_stream }
    }
}

/// What the controlled stream has to offer, if the stream offers `item` and the control stream
/// offers `control`.
pub fn poll_next<T, C>(item: Polled<T>, control: Polled<C>) -> (polled: Polled<(T, bool)>)
    ensures
        polled == combined(item, control),
{
    let (is_ready, is_closed): (bool, bool) = match control {
        Polled::Ready(Some(_)) => (true, false),
        Polled::Ready(None) => (true, true),
        Polled::Pending => (false, false),
    };
    match item {
        Polled::Ready(Some(entry)) => Polled::Ready(Some((entry, is_closed))),
        _ => if is_ready {
            Polled::Ready(None)
        } else {
            Polled::Pending
        },
    }
}

/// Whether the controlled stream has ended, given whether the two streams have.
pub fn is_terminated(is_stream_terminated: bool, is_control_terminated: bool) -> (r: bool)
    ensures
        r == (is_stream_terminated || is_control_terminated),
{
    is_stream_terminated || is_control_terminated
}

/// No item is lost or made up: the controlled stream offers an item exactly when the stream does,
/// and it is the same one, with a flag that is set exactly when the control stream is closed. It
/// ends only when the control stream is closed or has an item itself.
pub proof fn lemma_items_pass<T, C>(item: Polled<T>, control: Polled<C>)
    ensures
        match combined(item, control) {
            Polled::Ready(Some((entry, flag))) => item == Polled::Ready(Some(entry)) && (flag
                <==> control == Polled::Ready(None::<C>)),
            Polled::Ready(None) => control is Ready,
            Polled::Pending => control is Pending,
        },
        item matches Polled::Ready(Some(_)) ==> combined(item, control) matches Polled::Ready(
            Some(_),
        ),
{
}

} // verus!
