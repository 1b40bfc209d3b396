//! Line validator: membership of a token in the fixed, case-sensitive
//! allow-list of transit-line identifiers, after stripping an optional
//! trailing calendar-format suffix (".ics").

use vstd::prelude::*;

verus! {

/// The fixed, closed, case-sensitive set of valid line identifiers:
/// A, C, E, B, D, F, M, G, J, Z, L, N, Q, R, W, 1-7, S, SI.
pub open spec fn is_valid_line(s: Seq<char>) -> bool {
    (s.len() == 1 && (s[0] == 'A' || s[0] == 'C' || s[0] == 'E' || s[0] == 'B' || s[0] == 'D'
        || s[0] == 'F' || s[0] == 'M' || s[0] == 'G' || s[0] == 'J' || s[0] == 'Z' || s[0] == 'L'
        || s[0] == 'N' || s[0] == 'Q' || s[0] == 'R' || s[0] == 'W' || s[0] == '1' || s[0] == '2'
        || s[0] == '3' || s[0] == '4' || s[0] == '5' || s[0] == '6' || s[0] == '7' || s[0] == 'S'))
    || (s.len() == 2 && s[0] == 'S' && s[1] == 'I')
}

/// The recognized calendar-format suffix, as a character sequence.
pub open spec fn ics_suffix() -> Seq<char> {
    seq!['.', 'i', 'c', 's']
}

/// Whether `s` ends with the recognized suffix.
pub open spec fn has_ics_suffix(s: Seq<char>) -> bool {
    s.len() >= 4 && s.subrange(s.len() - 4, s.len() as int) == ics_suffix()
}

/// The token with the one recognized suffix removed, if present.
pub open spec fn strip_ics(s: Seq<char>) -> Seq<char> {
    if has_ics_suffix(s) {
        s.subrange(0, s.len() - 4)
    } else {
        s
    }
}

/// Whether a raw request token names a valid line after suffix stripping.
pub open spec fn token_is_valid(s: Seq<char>) -> bool {
    is_valid_line(strip_ics(s))
}

/// Strips one trailing ".ics" suffix from the token, if present.
pub fn strip_calendar_suffix(token: &str) -> (r: &str)
    ensures
        r@ == strip_ics(token@),
{
    let n = token.unicode_len();
    if n >= 4 {
        let c0 = token.get_char(n - 4);
        let c1 = token.get_char(n - 3);
        let c2 = token.get_char(n - 2);
        let c3 = token.get_char(n - 1);
        if c0 == '.' && c1 == 'i' && c2 == 'c' && c3 == 's' {
            proof {
                assert(token@.subrange(token@.len() - 4, token@.len() as int) =~= ics_suffix());
            }
            return token.substring_char(0, n - 4);
        }
        proof {
            assert(!has_ics_suffix(token@)) by {
                if has_ics_suffix(token@) {
                    assert(token@.subrange(token@.len() - 4, token@.len() as int)[0] == '.');
                    assert(token@.subrange(token@.len() - 4, token@.len() as int)[1] == 'i');
                    assert(token@.subrange(token@.len() - 4, token@.len() as int)[2] == 'c');
                    assert(token@.subrange(token@.len() - 4, token@.len() as int)[3] == 's');
                }
            }
        }
        return token;
    }
    token
}

/// Exact, case-sensitive membership of a bare line code in the allow-list.
pub fn is_valid_line_code(code: &str) -> (r: bool)
    ensures
        r == is_valid_line(code@),
{
    let n = code.unicode_len();
    if n == 1 {
        let c = code.get_char(0);
        c == 'A' || c == 'C' || c == 'E' || c == 'B' || c == 'D' || c == 'F' || c == 'M'
            || c == 'G' || c == 'J' || c == 'Z' || c == 'L' || c == 'N' || c == 'Q' || c == 'R'
            || c == 'W' || c == '1' || c == '2' || c == '3' || c == '4' || c == '5' || c == '6'
            || c == '7' || c == 'S'
    } else if n == 2 {
        code.get_char(0) == 'S' && code.get_char(1) == 'I'
    } else {
        false
    }
}

/// Whether a raw request token (possibly carrying the ".ics" suffix) names
/// a valid line. Comparison is exact and case-sensitive.
pub fn validate_line_token(token: &str) -> (r: bool)
    ensures
        r == token_is_valid(token@),
{
    let stripped = strip_calendar_suffix(token);
    is_valid_line_code(stripped)
}

/// A token with the suffix appended validates exactly like the bare token:
/// stripping removes only the one recognized suffix.
pub proof fn lemma_suffix_validate_equiv(s: Seq<char>)
    requires
        !has_ics_suffix(s),
    ensures
        token_is_valid(s + ics_suffix()) == token_is_valid(s),
{
    let t = s + ics_suffix();
    assert(t.subrange(t.len() - 4, t.len() as int) =~= ics_suffix());
    assert(t.subrange(0, t.len() - 4) =~= s);
}

/// Suffix stripping is idempotent on any token that validates: a valid
/// line code is too short to end in the suffix, so a second strip is a no-op.
pub proof fn lemma_strip_idempotent_on_valid(s: Seq<char>)
    requires
        token_is_valid(s),
    ensures
        strip_ics(strip_ics(s)) == strip_ics(s),
{
    assert(strip_ics(s).len() <= 2);
}

} // verus!
