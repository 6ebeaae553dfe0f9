//! The ring-3 corpus programs embedded in the kernel image.
use vstd::prelude::*;

use crate::bytes::str_eq;

verus! {

/// Whether `name` is one of the corpus programs (`mendo`,
/// `ring3-io-demo`, `hello-alloc`, `sig-demo`).
pub open spec fn corpus_name(name: Seq<char>) -> bool {
    name == "mendo"@ || name == "ring3-io-demo"@ || name == "hello-alloc"@ || name == "sig-demo"@
}

pub fn is_corpus_program(name: &str) -> (r: bool)
    ensures
        r == corpus_name(name@),
{
    str_eq(name, "mendo") || str_eq(name, "ring3-io-demo") || str_eq(name, "hello-alloc") || str_eq(name, "sig-demo")
}

} // verus!
