//! Case conversions (through `heck`) and the case validators used by the
//! project scaffolder.
use vstd::prelude::*;
use heck::{ToKebabCase, ToPascalCase, ToShoutySnakeCase, ToSnakeCase};
use crate::text::{chars_of, str_eq};

verus! {

// ---------------------------------------------------------------------
// heck
// ---------------------------------------------------------------------

/// What `heck::ToKebabCase::to_kebab_case` returns for a string.
pub uninterp spec fn heck_kebab(s: Seq<char>) -> Seq<char>;

/// What `heck::ToSnakeCase::to_snake_case` returns for a string.
pub uninterp spec fn heck_snake(s: Seq<char>) -> Seq<char>;

/// What `heck::ToPascalCase::to_pascal_case` returns for a string.
pub uninterp spec fn heck_pascal(s: Seq<char>) -> Seq<char>;

/// What `heck::ToShoutySnakeCase::to_shouty_snake_case` returns for a string.
pub uninterp spec fn heck_shouty_snake(s: Seq<char>) -> Seq<char>;

/// Calls `heck::ToKebabCase::to_kebab_case`; the result is named
/// `heck_kebab` of the argument and nothing more is claimed of it.
#[verifier::external_body]
pub(crate) fn kebab_case(s: &str) -> (r: String)
    ensures
        r@ == heck_kebab(s@),
{
    s.to_kebab_case()
}

/// Calls `heck::ToSnakeCase::to_snake_case`; the result is named
/// `heck_snake` of the argument and nothing more is claimed of it.
#[verifier::external_body]
pub(crate) fn snake_case(s: &str) -> (r: String)
    ensures
        r@ == heck_snake(s@),
{
    s.to_snake_case()
}

/// Calls `heck::ToPascalCase::to_pascal_case`; the result is named
/// `heck_pascal` of the argument and nothing more is claimed of it.
#[verifier::external_body]
pub(crate) fn pascal_case(s: &str) -> (r: String)
    ensures
        r@ == heck_pascal(s@),
{
    s.to_pascal_case()
}

/// Calls `heck::ToShoutySnakeCase::to_shouty_snake_case`; the result is
/// named `heck_shouty_snake` of the argument and nothing more is claimed.
#[verifier::external_body]
pub(crate) fn shouty_snake_case(s: &str) -> (r: String)
    ensures
        r@ == heck_shouty_snake(s@),
{
    s.to_shouty_snake_case()
}

// ---------------------------------------------------------------------
// Validators
// ---------------------------------------------------------------------

pub open spec fn ascii_lower(c: char) -> bool {
    'a' <= c && c <= 'z'
}

pub open spec fn ascii_upper(c: char) -> bool {
    'A' <= c && c <= 'Z'
}

pub open spec fn ascii_digit(c: char) -> bool {
    '0' <= c && c <= '9'
}

pub open spec fn ascii_alnum(c: char) -> bool {
    ascii_lower(c) || ascii_upper(c) || ascii_digit(c)
}

/// Lower-case letters, digits and `sep`, not empty, and `sep` at neither
/// end.
pub open spec fn separated_lower(s: Seq<char>, sep: char) -> bool {
    &&& s.len() > 0
    &&& forall|i: int| 0 <= i < s.len() ==> ascii_lower(#[trigger] s[i]) || ascii_digit(s[i]) || s[i] == sep
    &&& s[0] != sep
    &&& s.last() != sep
}

/// kebab-case: `a-z`, `0-9` and `-`, with no leading or trailing `-`.
pub open spec fn kebab_ok(s: Seq<char>) -> bool {
    separated_lower(s, '-')
}

/// snake_case: `a-z`, `0-9` and `_`, with no leading or trailing `_`.
pub open spec fn snake_ok(s: Seq<char>) -> bool {
    separated_lower(s, '_')
}

/// PascalCase: an upper-case first letter, then ASCII letters and digits.
pub open spec fn pascal_ok(s: Seq<char>) -> bool {
    &&& s.len() > 0
    &&& ascii_upper(s[0])
    &&& forall|i: int| 0 <= i < s.len() ==> ascii_alnum(#[trigger] s[i])
}

/// identifier: not empty; ASCII letters, digits, `_` and `-`.
pub open spec fn identifier_ok(s: Seq<char>) -> bool {
    &&& s.len() > 0
    &&& forall|i: int| 0 <= i < s.len() ==> ascii_alnum(#[trigger] s[i]) || s[i] == '_' || s[i] == '-'
}

/// The verdict of validator `kind` on `value`: `None` when there is no
/// validator of that name.
pub open spec fn validator_verdict(value: Seq<char>, kind: Seq<char>) -> Option<bool> {
    if kind == "none"@ {
        Some(true)
    } else if kind == "kebab"@ {
        Some(kebab_ok(value))
    } else if kind == "snake"@ {
        Some(snake_ok(value))
    } else if kind == "pascal"@ {
        Some(pascal_ok(value))
    } else if kind == "identifier"@ {
        Some(identifier_ok(value))
    } else {
        None
    }
}

fn all_lower_or(s: &Vec<char>, sep: char) -> (r: bool)
    ensures
        r == forall|i: int| 0 <= i < s@.len() ==> ascii_lower(#[trigger] s@[i]) || ascii_digit(s@[i]) || s@[i] == sep,
{
    let mut i: usize = 0;
    while i < s.len()
        invariant
            i <= s.len(),
            forall|j: int| 0 <= j < i ==> ascii_lower(#[trigger] s@[j]) || ascii_digit(s@[j]) || s@[j] == sep,
        decreases s.len() - i,
    {
        let c = s[i];
        if !(('a' <= c && c <= 'z') || ('0' <= c && c <= '9') || c == sep) {
            return false;
        }
        i += 1;
    }
    true
}

fn separated_lower_check(s: &Vec<char>, sep: char) -> (r: bool)
    ensures
        r == separated_lower(s@, sep),
{
    s.len() > 0 && all_lower_or(s, sep) && s[0] != sep && s[s.len() - 1] != sep
}

/// Is `s` kebab-case?
pub fn is_kebab(s: &str) -> (r: bool)
    ensures
        r == kebab_ok(s@),
{
    let v = chars_of(s);
    separated_lower_check(&v, '-')
}

/// Is `s` snake_case?
pub fn is_snake(s: &str) -> (r: bool)
    ensures
        r == snake_ok(s@),
{
    let v = chars_of(s);
    separated_lower_check(&v, '_')
}

/// Is `s` PascalCase?
pub fn is_pascal(s: &str) -> (r: bool)
    ensures
        r == pascal_ok(s@),
{
    let v = chars_of(s);
    if v.len() == 0 || !('A' <= v[0] && v[0] <= 'Z') {
        return false;
    }
    let mut i: usize = 0;
    while i < v.len()
        invariant
            i <= v.len(),
            v@ == s@,
            forall|j: int| 0 <= j < i ==> ascii_alnum(#[trigger] v@[j]),
        decreases v.len() - i,
    {
        let c = v[i];
        if !(('a' <= c && c <= 'z') || ('A' <= c && c <= 'Z') || ('0' <= c && c <= '9')) {
            assert(!ascii_alnum(s@[i as int]));
            return false;
        }
        i += 1;
    }
    true
}

/// Is `s` an identifier (letters, digits, `_`, `-`)?
pub fn is_identifier(s: &str) -> (r: bool)
    ensures
        r == identifier_ok(s@),
{
    let v = chars_of(s);
    if v.len() == 0 {
        return false;
    }
    let mut i: usize = 0;
    while i < v.len()
        invariant
            i <= v.len(),
            v@ == s@,
            forall|j: int| 0 <= j < i ==> ascii_alnum(#[trigger] v@[j]) || v@[j] == '_' || v@[j] == '-',
        decreases v.len() - i,
    {
        let c = v[i];
        if !(('a' <= c && c <= 'z') || ('A' <= c && c <= 'Z') || ('0' <= c && c <= '9') || c
            == '_' || c == '-') {
            assert(!(ascii_alnum(s@[i as int]) || s@[i as int] == '_' || s@[i as int] == '-'));
            return false;
        }
        i += 1;
    }
    true
}

/// Why a value was refused by [`validate`].
pub enum ValidateError {
    /// No validator has this name.
    UnknownValidator { kind: String },
    /// The value does not have the required shape.
    NotValid { value: String, kind: String },
}

/// Checks `value` against the validator named `kind` (`none`, `kebab`,
/// `snake`, `pascal`, `identifier`).
pub fn validate(value: &str, kind: &str) -> (r: Result<(), ValidateError>)
    ensures
        match validator_verdict(value@, kind@) {
            None => r matches Err(ValidateError::UnknownValidator { kind: k }) && k@ == kind@,
            Some(true) => r is Ok,
            Some(false) => r matches Err(ValidateError::NotValid { value: v, kind: k }) && v@
                == value@ && k@ == kind@,
        },
{
    let ok = if str_eq(kind, "none") {
        true
    } else if str_eq(kind, "kebab") {
        is_kebab(value)
    } else if str_eq(kind, "snake") {
        is_snake(value)
    } else if str_eq(kind, "pascal") {
        is_pascal(value)
    } else if str_eq(kind, "identifier") {
        is_identifier(value)
    } else {
        return Err(ValidateError::UnknownValidator { kind: kind.to_string() });
    };
    if !ok {
        return Err(ValidateError::NotValid { value: value.to_string(), kind: kind.to_string() });
    }
    Ok(())
}

/// What each validator accepts, spelled out character by character:
/// `none` anything; `kebab` lower-case ASCII letters, digits and `-`, not
/// empty and not starting or ending with `-`; `snake` the same with `_`
/// (so no upper-case letter is ever snake_case); `pascal` an upper-case
/// ASCII letter followed by ASCII letters and digits; `identifier` a
/// non-empty run of ASCII letters, digits, `_` and `-`. Any other name is
/// no validator.
pub proof fn law_validators(v: Seq<char>, kind: Seq<char>)
    ensures
        validator_verdict(v, "none"@) == Some(true),
        validator_verdict(v, "kebab"@) == Some(
            v.len() > 0 && v[0] != '-' && v[v.len() - 1] != '-' && forall|i: int|
                0 <= i < v.len() ==> ('a' <= #[trigger] v[i] && v[i] <= 'z') || ('0' <= v[i] && v[i]
                    <= '9') || v[i] == '-',
        ),
        validator_verdict(v, "snake"@) == Some(
            v.len() > 0 && v[0] != '_' && v[v.len() - 1] != '_' && forall|i: int|
                0 <= i < v.len() ==> ('a' <= #[trigger] v[i] && v[i] <= 'z') || ('0' <= v[i] && v[i]
                    <= '9') || v[i] == '_',
        ),
        validator_verdict(v, "pascal"@) == Some(
            v.len() > 0 && 'A' <= v[0] && v[0] <= 'Z' && forall|i: int|
                0 <= i < v.len() ==> ('a' <= #[trigger] v[i] && v[i] <= 'z') || ('A' <= v[i] && v[i]
                    <= 'Z') || ('0' <= v[i] && v[i] <= '9'),
        ),
        validator_verdict(v, "identifier"@) == Some(
            v.len() > 0 && forall|i: int|
                0 <= i < v.len() ==> ('a' <= #[trigger] v[i] && v[i] <= 'z') || ('A' <= v[i] && v[i]
                    <= 'Z') || ('0' <= v[i] && v[i] <= '9') || v[i] == '_' || v[i] == '-',
        ),
        kind != "none"@ && kind != "kebab"@ && kind != "snake"@ && kind != "pascal"@ && kind
            != "identifier"@ ==> validator_verdict(v, kind) is None,
{
    reveal_strlit("none");
    reveal_strlit("kebab");
    reveal_strlit("snake");
    reveal_strlit("pascal");
    reveal_strlit("identifier");
    assert("none"@ != "kebab"@) by { assert("none"@.len() != "kebab"@.len()); }
    assert("none"@ != "snake"@) by { assert("none"@.len() != "snake"@.len()); }
    assert("none"@ != "pascal"@) by { assert("none"@.len() != "pascal"@.len()); }
    assert("none"@ != "identifier"@) by { assert("none"@.len() != "identifier"@.len()); }
    assert("kebab"@ != "snake"@) by { assert("kebab"@[0] != "snake"@[0]); }
    assert("kebab"@ != "pascal"@) by { assert("kebab"@.len() != "pascal"@.len()); }
    assert("kebab"@ != "identifier"@) by { assert("kebab"@.len() != "identifier"@.len()); }
    assert("snake"@ != "pascal"@) by { assert("snake"@.len() != "pascal"@.len()); }
    assert("snake"@ != "identifier"@) by { assert("snake"@.len() != "identifier"@.len()); }
    assert("pascal"@ != "identifier"@) by { assert("pascal"@.len() != "identifier"@.len()); }
}

} // verus!
