//! The random sampler: builds a password of the requested length by drawing
//! independent, uniform picks from the selected character pool, from the
//! operating system's secure random source.

use vstd::prelude::*;
use vstd::string::StrSliceExecFns;
use crate::charset::{charset_chars, get_password_charset, lemma_charset_chars_len};
use crate::text::push_char;

verus! {

/// The default password length, taken when the caller passes the sentinel 0.
pub const DEFAULT_LENGTH: usize = 32;

/// The length actually generated: the request, or the default for the
/// sentinel 0.
pub open spec fn effective_len(num_chars: usize) -> int {
    if num_chars == 0 {
        DEFAULT_LENGTH as int
    } else {
        num_chars as int
    }
}

/// Relies on rand: `Rng::gen_range(0..bound)` on `rand::rngs::OsRng`, the
/// operating system's cryptographically secure source, returns a uniformly
/// random value of the non-empty range, so one below `bound`. Nothing more
/// can be promised of a random draw.
#[verifier::external_body]
fn random_below(bound: usize) -> (r: usize)
    requires
        bound > 0,
    ensures
        r < bound,
{
    rand::Rng::gen_range(&mut rand::rngs::OsRng, 0..bound)
}

/// Generates a password: exactly the requested number of characters (0 asks
/// for the default length), each drawn independently from the pool the three
/// class flags select. The count is exact: a request for n characters yields
/// n of them. No per-class minimum is promised: a draw may miss a whole
/// selected class by chance.
pub fn generate_password(num_chars: usize, alpha: bool, num: bool, symbol: bool) -> (r: String)
    ensures
        r@.len() == effective_len(num_chars),
        forall|i: int| 0 <= i < r@.len() ==> charset_chars(alpha, num, symbol).contains(r@[i]),
{
    let target: usize = if num_chars == 0 {
        DEFAULT_LENGTH
    } else {
        num_chars
    };
    let (charset, _label) = get_password_charset(alpha, num, symbol);
    proof {
        lemma_charset_chars_len(alpha, num, symbol);
    }
    let pool = charset.as_str();
    let pool_len = pool.unicode_len();
    let mut pw = String::new();
    let mut i: usize = 0;
    while i < target
        invariant
            i <= target,
            pw@.len() == i,
            pool@ == charset_chars(alpha, num, symbol),
            pool_len == pool@.len(),
            pool_len >= 1,
            forall|j: int| 0 <= j < i ==> charset_chars(alpha, num, symbol).contains(pw@[j]),
        decreases target - i,
    {
        let idx = random_below(pool_len);
        let c = pool.get_char(idx);
        proof {
            assert(charset_chars(alpha, num, symbol)[idx as int] == c);
        }
        push_char(&mut pw, c);
        i += 1;
    }
    pw
}

} // verus!
