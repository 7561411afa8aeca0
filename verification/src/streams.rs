//! A lazily generated, infinite Fibonacci stream.
//!
//! The stream is pull-based: each pull returns the current element and
//! advances a two-counter state by the Fibonacci recurrence. There is no
//! terminal state; values wrap with the standard unsigned 64-bit overflow
//! semantics once they outgrow a machine word. Restarting means building a
//! fresh stream from the initial state; an existing stream never rewinds.

use vstd::prelude::*;
use vstd::arithmetic::div_mod::{lemma_add_mod_noop, lemma_mod_multiples_vanish, lemma_small_mod};

verus! {

/// The mathematical Fibonacci sequence.
pub open spec fn fib(n: nat) -> nat
    decreases n,
{
    if n == 0 {
        0
    } else if n == 1 {
        1
    } else {
        fib((n - 2) as nat) + fib((n - 1) as nat)
    }
}

/// One more than `u64::MAX`; pulled values are Fibonacci numbers modulo this.
pub open spec fn word_size() -> int {
    0x1_0000_0000_0000_0000
}

/// Addition of two 64-bit words with the standard unsigned wraparound.
pub open spec fn wrap_add(x: u64, y: u64) -> u64 {
    if x + y < word_size() {
        (x + y) as u64
    } else {
        (x + y - word_size()) as u64
    }
}

/// Wrapping addition of consecutive Fibonacci residues yields the next
/// Fibonacci residue: the recurrence survives reduction modulo the word size.
pub proof fn lemma_fib_wrap_step(k: nat)
    ensures
        wrap_add(
            (fib(k) % word_size() as nat) as u64,
            (fib(k + 1) % word_size() as nat) as u64,
        ) as nat == fib(k + 2) % word_size() as nat,
{
    let m = word_size();
    let a = fib(k) % m as nat;
    let b = fib(k + 1) % m as nat;
    assert(fib(k + 2) == fib(k) + fib(k + 1));
    lemma_add_mod_noop(fib(k) as int, fib(k + 1) as int, m);
    if a + b < m {
        lemma_small_mod((a + b) as nat, m as nat);
    } else {
        lemma_mod_multiples_vanish(1, a + b - m, m);
        lemma_small_mod((a + b - m) as nat, m as nat);
    }
}

/// An infinite, pull-based Fibonacci stream.
///
/// The two counters hold consecutive elements of the recurrence; the ghost
/// position records how many values have been pulled since construction.
pub struct FibonacciStream {
    curr: u64,
    next: u64,
    pos: Ghost<nat>,
}

impl FibonacciStream {
    /// How many values have been pulled from this stream so far.
    pub closed spec fn position(self) -> nat {
        self.pos@
    }

    /// The counters hold the consecutive Fibonacci residues at the current
    /// position; every constructor establishes this and every pull keeps it.
    pub closed spec fn well_formed(self) -> bool {
        &&& self.curr as nat == fib(self.pos@) % word_size() as nat
        &&& self.next as nat == fib(self.pos@ + 1) % word_size() as nat
    }

    /// A fresh stream, positioned at the start of the sequence.
    pub fn new() -> (s: Self)
        ensures
            s.well_formed(),
            s.position() == 0,
    {
        proof {
            lemma_small_mod(0, word_size() as nat);
            lemma_small_mod(1, word_size() as nat);
        }
        FibonacciStream { curr: 0, next: 1, pos: Ghost(0) }
    }

    /// Pull the next value: return the element at the current position and
    /// advance the state by the recurrence. Never exhausts; wraps modulo the
    /// word size instead of overflowing.
    pub fn next_value(&mut self) -> (v: u64)
        requires
            old(self).well_formed(),
        ensures
            final(self).well_formed(),
            final(self).position() == old(self).position() + 1,
            v as nat == fib(old(self).position()) % word_size() as nat,
    {
        let current = self.curr;
        let upcoming = self.next;
        self.curr = upcoming;
        self.next = current.wrapping_add(upcoming);
        proof {
            lemma_fib_wrap_step(self.pos@);
        }
        self.pos = Ghost(self.pos@ + 1);
        current
    }
}

/// Pull exactly `n` values from the stream, in pull order.
///
/// The stream never signals end-of-data, so the result always holds exactly
/// `n` elements — never fewer, never more — and `n == 0` performs no pulls.
/// Element `i` is the Fibonacci number at offset `i` from the stream's
/// position, reduced modulo the word size.
pub fn take_n(stream: FibonacciStream, n: usize) -> (items: Vec<u64>)
    requires
        stream.well_formed(),
    ensures
        items.len() == n,
        forall|i: int|
            0 <= i < n ==> items[i] as nat == fib((stream.position() + i) as nat) % word_size() as nat,
{
    let mut s = stream;
    let mut items: Vec<u64> = Vec::new();
    let mut count: usize = 0;
    while count < n
        invariant
            count <= n,
            s.well_formed(),
            s.position() == stream.position() + count,
            items.len() == count,
            forall|i: int|
                0 <= i < count ==> items[i] as nat == fib((stream.position() + i) as nat)
                    % word_size() as nat,
        decreases n - count,
    {
        let v = s.next_value();
        items.push(v);
        count += 1;
    }
    items
}

} // verus!
