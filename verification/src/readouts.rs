//! Calls into outside crates, each behind a single trusted item whose
//! contract states what the crate's own source and documentation promise.

use vstd::prelude::*;

verus! {

/// The human-readable rendering that `bytesize` gives a quantity of
/// `kb` kilobytes. The rendering depends on the quantity alone.
pub uninterp spec fn kb_display(kb: u64) -> Seq<char>;

/// Relies on `bytesize::ByteSize::kb` and the `Display` impl of
/// `bytesize::ByteSize`: a pure, human-readable rendering of a byte
/// quantity given in kilobytes. `ByteSize::kb` multiplies by 1000, so the
/// quantity must leave that product inside `u64`.
#[verifier::external_body]
pub(crate) fn format_kb(kb: u64) -> (r: String)
    requires
        kb <= u64::MAX / 1000,
    ensures
        r@ == kb_display(kb),
{
    format!("{}", bytesize::ByteSize::kb(kb))
}

/// Relies on `num_cpus::get`: the number of logical CPUs available to the
/// process. Its documentation states that it always returns at least 1.
#[verifier::external_body]
pub(crate) fn logical_core_count() -> (r: usize)
    ensures
        1 <= r,
{
    num_cpus::get()
}

} // verus!
