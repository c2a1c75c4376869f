//! Session codes: eight symbols from an alphabet without look-alike glyphs.

use vstd::prelude::*;
use vstd::string::*;

verus! {

/// Number of symbols in a session code.
pub const CODE_LENGTH: usize = 8;

/// Number of symbols in the code alphabet.
pub const CHARSET_SIZE: usize = 24;

/// The code alphabet: the capital letters without `I` and `O`.
pub open spec fn code_charset() -> Seq<char> {
    seq![
        'A', 'B', 'C', 'D', 'E', 'F', 'G', 'H', 'J', 'K', 'L', 'M',
        'N', 'P', 'Q', 'R', 'S', 'T', 'U', 'V', 'W', 'X', 'Y', 'Z',
    ]
}

/// A well-formed code has exactly `CODE_LENGTH` symbols, all from the alphabet.
pub open spec fn is_code(s: Seq<char>) -> bool {
    &&& s.len() == CODE_LENGTH
    &&& forall|i: int| 0 <= i < s.len() ==> code_charset().contains(#[trigger] s[i])
}

/// `fastrand::Rng`, a generator of pseudo-random numbers. Nothing is said of
/// what it holds; it is handed on to `random_below`.
#[verifier::external_type_specification]
#[verifier::external_body]
pub struct ExRng(fastrand::Rng);

/// `fastrand::Rng::usize` on the range `0..bound`: some index below `bound`.
/// Which one is left open. The generator panics on an empty range, so the
/// bound must be positive.
#[verifier::external_body]
fn random_below(rng: &mut fastrand::Rng, bound: usize) -> (index: usize)
    requires
        bound > 0,
    ensures
        index < bound,
{
    rng.usize(0..bound)
}

/// The alphabet symbol at `index`, as a string of one character; `None` for
/// an index that the alphabet does not have.
pub fn charset_symbol(index: usize) -> (symbol: Option<&'static str>)
    ensures
        match symbol {
            Some(s) => index < CHARSET_SIZE && s@ == seq![code_charset()[index as int]],
            None => index >= CHARSET_SIZE,
        },
{
    if index >= CHARSET_SIZE {
        return None;
    }
    let charset = "ABCDEFGHJKLMNPQRSTUVWXYZ";
    proof {
        reveal_strlit("ABCDEFGHJKLMNPQRSTUVWXYZ");
        assert(charset@ =~= code_charset());
    }
    let symbol = charset.substring_char(index, index + 1);
    assert(symbol@ =~= seq![code_charset()[index as int]]);
    Some(symbol)
}

/// Draws a code: `CODE_LENGTH` times the generator picks an index and the
/// symbol at that index is appended.
pub fn generate_code(rng: &mut fastrand::Rng) -> (code: String)
    ensures
        is_code(code@),
{
    let mut code = String::new();
    let mut count: usize = 0;
    while count < CODE_LENGTH
        invariant
            count <= CODE_LENGTH,
            code@.len() == count,
            forall|i: int| 0 <= i < code@.len() ==> code_charset().contains(#[trigger] code@[i]),
        decreases CODE_LENGTH - count,
    {
        let index = random_below(rng, CHARSET_SIZE);
        if let Some(symbol) = charset_symbol(index) {
            let ghost before = code@;
            code.append(symbol);
            proof {
                assert(code@ =~= before.push(code_charset()[index as int]));
                assert forall|i: int| 0 <= i < code@.len() implies code_charset().contains(
                    #[trigger] code@[i],
                ) by {
                    if i < before.len() {
                        assert(code@[i] == before[i]);
                    }
                }
            }
        }
        count += 1;
    }
    code
}

} // verus!
