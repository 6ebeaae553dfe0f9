//! The corpus runner's bookkeeping: the captured program output, the
//! execution counter, and which names run as corpus programs.
use vstd::prelude::*;

use crate::bytes::str_eq;
use crate::counter::bumped;
use crate::embedded_programs::corpus_name;

verus! {

pub struct CorpusState {
    pub output: Vec<u8>,
    pub execs: u64,
}

impl CorpusState {
    pub fn new() -> (r: Self)
        ensures
            r.output@.len() == 0,
            r.execs == 0,
    {
        CorpusState { output: Vec::new(), execs: 0 }
    }
}

pub fn corpus_exec_count(st: &CorpusState) -> (r: u64)
    ensures
        r == st.execs,
{
    st.execs
}

/// Append program output to the capture.
pub fn append_corpus_output(st: &mut CorpusState, bytes: &[u8])
    ensures
        final(st).output@ == old(st).output@ + bytes@,
        final(st).execs == old(st).execs,
{
    let mut i: usize = 0;
    while i < bytes.len()
        invariant
            i <= bytes@.len(),
            st.output@ == old(st).output@ + bytes@.take(i as int),
            st.execs == old(st).execs,
        decreases bytes@.len() - i,
    {
        st.output.push(bytes[i]);
        i += 1;
    }
    assert(bytes@.take(bytes@.len() as int) =~= bytes@);
}

/// Hand out the captured output and start a new capture.
pub fn take_corpus_output(st: &mut CorpusState) -> (r: Vec<u8>)
    ensures
        r@ == old(st).output@,
        final(st).output@.len() == 0,
        final(st).execs == old(st).execs,
{
    let mut out: Vec<u8> = Vec::new();
    core::mem::swap(&mut out, &mut st.output);
    out
}

/// The embedded corpus programs and the ext2-loaded I/O demo.
pub fn is_corpus_program(name: &str) -> (r: bool)
    ensures
        r == (corpus_name(name@) || name@ == "ring3-io-demo-ext2"@),
{
    crate::embedded_programs::is_corpus_program(name) || str_eq(name, "ring3-io-demo-ext2")
}

/// The process name a corpus program runs under.
pub fn corpus_process_name(name: &str) -> (r: &'static str)
    ensures
        r@ == (if name@ == "mendo"@ {
            "mendo"@
        } else if name@ == "ring3-io-demo"@ {
            "ring3-io-demo"@
        } else if name@ == "hello-alloc"@ {
            "hello-alloc"@
        } else if name@ == "sig-demo"@ {
            "sig-demo"@
        } else if name@ == "ring3-io-demo-ext2"@ {
            "ring3-io-ext2"@
        } else {
            "corpus-run"@
        }),
{
    if str_eq(name, "mendo") {
        "mendo"
    } else if str_eq(name, "ring3-io-demo") {
        "ring3-io-demo"
    } else if str_eq(name, "hello-alloc") {
        "hello-alloc"
    } else if str_eq(name, "sig-demo") {
        "sig-demo"
    } else if str_eq(name, "ring3-io-demo-ext2") {
        "ring3-io-ext2"
    } else {
        "corpus-run"
    }
}

} // verus!
