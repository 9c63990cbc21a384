//! Random boundaries: a xorshift64 generator seeded from std's `RandomState`, and the
//! hexadecimal text that four of its outputs make.

use vstd::prelude::*;
use std::collections::hash_map::{DefaultHasher, RandomState};
use std::hash::{BuildHasher, Hasher};
use vstd::std_specs::hash::DefaultHasherAdditionalSpecFns;

verus! {

/// One step of xorshift64 (shifts 13, 7, 17).
pub open spec fn xorshift(n: u64) -> u64 {
    let a = n ^ (n << 13u64);
    let b = a ^ (a >> 7u64);
    b ^ (b << 17u64)
}

/// The lower-case hexadecimal digit for `d < 16`.
pub open spec fn hex_digit(d: nat) -> char {
    if d < 10 {
        (d + 48) as char
    } else {
        (d + 87) as char
    }
}

/// The last `k` hexadecimal digits of `n`, most significant first, with leading zeros.
pub open spec fn hex_digits(n: nat, k: nat) -> Seq<char>
    decreases k,
{
    if k == 0 {
        Seq::empty()
    } else {
        hex_digits(n / 16, (k - 1) as nat).push(hex_digit(n % 16))
    }
}

/// `n` as `format!("{:016x}", n)` writes it.
pub open spec fn hex16(n: u64) -> Seq<char> {
    hex_digits(n as nat, 16)
}

/// The boundary that a generator seeded with `seed` gives: its next four outputs, each as
/// sixteen hexadecimal digits.
pub open spec fn boundary_text(seed: u64) -> Seq<char> {
    let a = xorshift(seed);
    let b = xorshift(a);
    let c = xorshift(b);
    let d = xorshift(c);
    hex16(a) + hex16(b) + hex16(c) + hex16(d)
}

/// Four steps of xorshift64: the state after a generator has made one boundary.
pub open spec fn xorshift4(n: u64) -> u64 {
    xorshift(xorshift(xorshift(xorshift(n))))
}

/// Whether `s` is a boundary that some non-zero seed gives.
pub open spec fn is_generated_boundary(s: Seq<char>) -> bool {
    exists|seed: u64| seed != 0 && s == boundary_text(seed)
}

pub open spec fn is_lower_hex_char(c: char) -> bool {
    ('0' <= c <= '9') || ('a' <= c <= 'f')
}

/// `RandomState::new`: keys drawn at random (per thread, then counted up).
#[verifier::external_body]
fn random_state_new() -> RandomState {
    RandomState::new()
}

/// `<RandomState as BuildHasher>::build_hasher`: a SipHash hasher keyed by `state`.
#[verifier::external_body]
fn random_state_build_hasher(state: &RandomState) -> DefaultHasher {
    state.build_hasher()
}

/// `Hasher::write_usize` on a `DefaultHasher`.
#[verifier::external_body]
fn hasher_write_usize(h: &mut DefaultHasher, n: usize) {
    h.write_usize(n)
}

/// `String::push`: appends one character.
#[verifier::external_body]
fn string_push(s: &mut String, c: char)
    ensures
        final(s)@ == old(s)@.push(c),
{
    s.push(c)
}

/// Whether `seed` is the first non-zero result of `finish` among hashers whose states, one
/// after another, are `states`: every earlier hasher finished with zero.
pub open spec fn is_first_nonzero_hash(seed: u64, states: Seq<Seq<Seq<u8>>>) -> bool {
    &&& states.len() > 0
    &&& forall|j: int| 0 <= j < states.len() - 1 ==> DefaultHasher::spec_finish(#[trigger] states[j]) == 0
    &&& seed == DefaultHasher::spec_finish(states.last())
    &&& seed != 0
}

/// Whether every one of `states` finished with zero.
pub open spec fn all_hashes_zero(states: Seq<Seq<Seq<u8>>>) -> bool {
    forall|j: int| 0 <= j < states.len() ==> DefaultHasher::spec_finish(#[trigger] states[j]) == 0
}

/// A non-zero seed: the hash of `0, 1, 2, ...` under a fresh `RandomState`, up to the first
/// that is not zero (were every `usize` to hash to zero, `1`).
fn random_seed() -> (seed: u64)
    ensures
        seed != 0,
        (exists|states: Seq<Seq<Seq<u8>>>| is_first_nonzero_hash(seed, states)) || (seed == 1
            && exists|states: Seq<Seq<Seq<u8>>>|
            states.len() == usize::MAX + 1 && all_hashes_zero(states)),
{
    let state = random_state_new();
    let mut count: usize = 0;
    let ghost mut states: Seq<Seq<Seq<u8>>> = Seq::empty();
    loop
        invariant
            states.len() == count,
            all_hashes_zero(states),
        decreases usize::MAX - count,
    {
        let mut hasher = random_state_build_hasher(&state);
        hasher_write_usize(&mut hasher, count);
        let seed = hasher.finish();
        proof {
            states = states.push(hasher@);
        }
        if seed != 0 {
            assert(is_first_nonzero_hash(seed, states));
            return seed;
        }
        if count == usize::MAX {
            assert(all_hashes_zero(states));
            return 1;
        }
        count = count + 1;
    }
}

/// Advances the xorshift64 state by one step and returns the new state.
pub fn xorshit64(state: &mut u64) -> (n: u64)
    ensures
        n == xorshift(*old(state)),
        *final(state) == n,
{
    let mut n = *state;
    n = n ^ (n << 13u64);
    n = n ^ (n >> 7u64);
    n = n ^ (n << 17u64);
    *state = n;
    n
}

fn hex_char(d: u64) -> (c: char)
    requires
        d < 16,
    ensures
        c == hex_digit(d as nat),
{
    let b: u8 = d as u8;
    if b < 10 {
        (b + 48) as char
    } else {
        (b + 87) as char
    }
}

fn push_hex_digits(s: &mut String, n: u64, k: u32)
    ensures
        final(s)@ == old(s)@ + hex_digits(n as nat, k as nat),
    decreases k,
{
    if k > 0 {
        push_hex_digits(s, n / 16, k - 1);
        string_push(s, hex_char(n % 16));
    } else {
        assert(old(s)@ + hex_digits(n as nat, 0) == old(s)@);
    }
}

/// A generator of boundaries: a xorshift64 state, never zero. A program keeps one per thread
/// and draws the boundaries of its messages from it, so that they continue one sequence.
pub struct BoundaryGenerator {
    state: u64,
}

impl View for BoundaryGenerator {
    type V = u64;

    closed spec fn view(&self) -> u64 {
        self.state
    }
}

impl BoundaryGenerator {
    /// The state is never zero: xorshift64 would stay at zero.
    #[verifier::type_invariant]
    spec fn state_is_nonzero(self) -> bool {
        self.state != 0
    }

    /// A generator seeded at random: the first non-zero hash of `0, 1, 2, ...` under a fresh
    /// `RandomState`.
    pub fn new() -> (g: Self)
        ensures
            g@ != 0,
            (exists|states: Seq<Seq<Seq<u8>>>| is_first_nonzero_hash(g@, states)) || (g@ == 1
                && exists|states: Seq<Seq<Seq<u8>>>|
                states.len() == usize::MAX + 1 && all_hashes_zero(states)),
    {
        BoundaryGenerator { state: random_seed() }
    }

    /// A generator seeded with `seed`, which must not be zero.
    pub fn from_seed(seed: u64) -> (r: Option<Self>)
        ensures
            r is Some <==> seed != 0,
            r matches Some(g) ==> g@ == seed,
    {
        if seed == 0 {
            None
        } else {
            Some(BoundaryGenerator { state: seed })
        }
    }
}

/// Four steps of a xorshift64 state, and the boundary that they write: the four outputs as
/// sixteen lower-case hexadecimal digits each.
fn next_boundary(state: &mut u64) -> (s: String)
    ensures
        s@ == boundary_text(*old(state)),
        *final(state) == xorshift4(*old(state)),
{
    let a = xorshit64(state);
    let b = xorshit64(state);
    let c = xorshit64(state);
    let d = xorshit64(state);
    let mut s = String::new();
    push_hex_digits(&mut s, a, 16);
    push_hex_digits(&mut s, b, 16);
    push_hex_digits(&mut s, c, 16);
    push_hex_digits(&mut s, d, 16);
    s
}

/// The next boundary of a generator: its next four outputs written as sixteen lower-case
/// hexadecimal digits each (`format!("{:016x}{:016x}{:016x}{:016x}", ..)`); the generator
/// is left at the fourth. The boundary is never all zeros, and differs from the one that the
/// generator gives next.
pub fn generate_random_boundary(generator: &mut BoundaryGenerator) -> (s: String)
    ensures
        s@ == boundary_text(old(generator)@),
        final(generator)@ == xorshift4(old(generator)@),
        old(generator)@ != 0,
        final(generator)@ != 0,
        s@ != Seq::new(64, |i: int| '0'),
        s@ != boundary_text(final(generator)@),
{
    proof {
        use_type_invariant(&*generator);
    }
    let mut state = generator.state;
    let s = next_boundary(&mut state);
    proof {
        let x0 = generator.state;
        crate::laws::law_xorshift_keeps_nonzero(x0);
        crate::laws::law_xorshift_keeps_nonzero(xorshift(x0));
        crate::laws::law_xorshift_keeps_nonzero(xorshift(xorshift(x0)));
        crate::laws::law_xorshift_keeps_nonzero(xorshift(xorshift(xorshift(x0))));
        crate::laws::law_successive_boundaries_differ(x0);
    }
    generator.state = state;
    s
}

/// The boundary of a generator seeded with `seed`.
pub fn boundary_from_seed(seed: u64) -> (s: String)
    ensures
        s@ == boundary_text(seed),
{
    let mut state = seed;
    next_boundary(&mut state)
}

} // verus!
