//! The calls this library makes into outside crates, each with the contract
//! that the rest of the library relies on.
use vstd::prelude::*;

verus! {

/// `heapless::Vec`, the fixed-capacity vector that outgoing packets are
/// assembled in. Verus sees nothing inside a value of it; its contents are
/// named by [`packet_contents`].
#[verifier::external_type_specification]
#[verifier::external_body]
#[verifier::reject_recursive_types(T)]
pub struct ExHeaplessVec<T, const N: usize>(heapless::Vec<T, N>);

/// The bytes held by a packet buffer, in order.
pub uninterp spec fn packet_contents(v: heapless::Vec<u8, 16>) -> Seq<u8>;

/// `heapless::Vec::new`: the source builds a vector of length zero.
#[verifier::external_body]
pub(crate) fn packet_new() -> (v: heapless::Vec<u8, 16>)
    ensures
        packet_contents(v) == Seq::<u8>::empty(),
{
    heapless::Vec::new()
}

/// `heapless::Vec::push`: when the length is below the capacity (16) the
/// source appends the byte and returns `Ok(())`; otherwise it leaves the
/// vector as it was and hands the byte back in `Err`.
#[verifier::external_body]
pub(crate) fn packet_push(v: &mut heapless::Vec<u8, 16>, byte: u8) -> (r: Result<(), u8>)
    ensures
        packet_contents(*old(v)).len() < 16 ==> r is Ok,
        packet_contents(*old(v)).len() < 16 ==> packet_contents(*final(v)) == packet_contents(
            *old(v),
        ).push(byte),
        packet_contents(*old(v)).len() >= 16 ==> (r matches Err(b) && b == byte),
        packet_contents(*old(v)).len() >= 16 ==> packet_contents(*final(v)) == packet_contents(
            *old(v),
        ),
{
    v.push(byte)
}

/// `heapless::Vec::extend`: the source pushes each item in order and panics
/// when one does not fit, so the call is only made where all of them fit;
/// the items are then appended.
#[verifier::external_body]
pub(crate) fn packet_extend(v: &mut heapless::Vec<u8, 16>, items: &[u8])
    requires
        packet_contents(*old(v)).len() + items@.len() <= 16,
    ensures
        packet_contents(*final(v)) == packet_contents(*old(v)) + items@,
{
    v.extend(items.iter().copied())
}

/// The current time as whole seconds since the Unix epoch: the system clock
/// (`std::time::SystemTime::now`) converted to `chrono::DateTime<Utc>` and
/// read with `DateTime::timestamp`. Nothing is promised of the value: it is
/// whatever the clock says.
#[verifier::external_body]
pub(crate) fn unix_now() -> (seconds: i64) {
    let now: chrono::DateTime<chrono::Utc> = std::time::SystemTime::now().into();
    now.timestamp()
}

} // verus!
