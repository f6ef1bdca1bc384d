//! Version numbers: the grammar of semantic versions, and its check.

use crate::template::{digit, is_digit, is_letter, letter};
use crate::text::chars_of;
use vstd::prelude::*;

verus! {

/// The three kinds of identifier in a semantic version.
#[derive(Clone, Copy, Debug, PartialEq, Eq, Structural)]
pub enum IdKind {
    /// A part of the version core: a number without leading zero.
    Numeric,
    /// A part of the pre-release: letters, digits and hyphens; where it is
    /// all digits, a number without leading zero.
    Pre,
    /// A part of the build metadata: letters, digits and hyphens.
    Build,
}

/// A letter, a digit or a hyphen.
pub open spec fn is_version_char(c: char) -> bool {
    is_letter(c) || is_digit(c) || c == '-'
}

/// Every character is a digit.
pub open spec fn all_digits(t: Seq<char>) -> bool {
    forall|i: int| 0 <= i < t.len() ==> is_digit(t[i])
}

/// Every character is a letter, a digit or a hyphen.
pub open spec fn all_version_chars(t: Seq<char>) -> bool {
    forall|i: int| 0 <= i < t.len() ==> is_version_char(t[i])
}

/// A number without leading zero: `0`, or digits that do not begin with
/// `0`.
pub open spec fn is_number(t: Seq<char>) -> bool {
    t.len() >= 1 && all_digits(t) && (t.len() == 1 || t[0] != '0')
}

/// The text is an identifier of the given kind.
pub open spec fn is_id(t: Seq<char>, kind: IdKind) -> bool {
    match kind {
        IdKind::Numeric => is_number(t),
        IdKind::Pre => t.len() >= 1 && all_version_chars(t) && (all_digits(t) ==> is_number(t)),
        IdKind::Build => t.len() >= 1 && all_version_chars(t),
    }
}

/// The place of the first dot at or after `from`, or the length of the text.
pub open spec fn first_dot(t: Seq<char>, from: nat) -> nat
    decreases t.len() - from,
{
    if from >= t.len() {
        t.len()
    } else if t[from as int] == '.' {
        from
    } else {
        first_dot(t, from + 1)
    }
}

/// The place of the first hyphen or plus sign at or after `from`, or the
/// length of the text.
pub open spec fn first_sign(t: Seq<char>, from: nat) -> nat
    decreases t.len() - from,
{
    if from >= t.len() {
        t.len()
    } else if t[from as int] == '-' || t[from as int] == '+' {
        from
    } else {
        first_sign(t, from + 1)
    }
}

/// The place of the first plus sign at or after `from`, or the length of the
/// text.
pub open spec fn first_plus(t: Seq<char>, from: nat) -> nat
    decreases t.len() - from,
{
    if from >= t.len() {
        t.len()
    } else if t[from as int] == '+' {
        from
    } else {
        first_plus(t, from + 1)
    }
}

/// The text is a list of identifiers of the given kind, separated by dots.
pub open spec fn dotted(t: Seq<char>, kind: IdKind) -> bool
    decreases t.len(),
{
    let d = first_dot(t, 0);
    if d >= t.len() {
        is_id(t, kind)
    } else {
        is_id(t.subrange(0, d as int), kind) && dotted(t.subrange(d as int + 1, t.len() as int), kind)
    }
}

/// The number of parts that the dots cut the text into.
pub open spec fn parts(t: Seq<char>) -> nat
    decreases t.len(),
{
    let d = first_dot(t, 0);
    if d >= t.len() {
        1
    } else {
        1 + parts(t.subrange(d as int + 1, t.len() as int))
    }
}

/// A semantic version: three numbers separated by dots; then, after a
/// hyphen, the identifiers of a pre-release, if any; then, after a plus
/// sign, the identifiers of the build, if any.
pub open spec fn is_semver(t: Seq<char>) -> bool {
    let p = first_sign(t, 0);
    let core = t.subrange(0, p as int);
    &&& dotted(core, IdKind::Numeric)
    &&& parts(core) == 3
    &&& if p >= t.len() {
        true
    } else if t[p as int] == '+' {
        dotted(t.subrange(p as int + 1, t.len() as int), IdKind::Build)
    } else {
        let q = first_plus(t, p + 1);
        &&& dotted(t.subrange(p as int + 1, q as int), IdKind::Pre)
        &&& q >= t.len() || dotted(t.subrange(q as int + 1, t.len() as int), IdKind::Build)
    }
}

proof fn lemma_first_dot_bounds(t: Seq<char>, from: nat)
    requires
        from <= t.len(),
    ensures
        from <= first_dot(t, from) <= t.len(),
        first_dot(t, from) < t.len() ==> t[first_dot(t, from) as int] == '.',
    decreases t.len() - from,
{
    if from < t.len() && t[from as int] != '.' {
        lemma_first_dot_bounds(t, from + 1);
    }
}

proof fn lemma_first_sign_bounds(t: Seq<char>, from: nat)
    requires
        from <= t.len(),
    ensures
        from <= first_sign(t, from) <= t.len(),
    decreases t.len() - from,
{
    if from < t.len() && !(t[from as int] == '-' || t[from as int] == '+') {
        lemma_first_sign_bounds(t, from + 1);
    }
}

proof fn lemma_first_plus_bounds(t: Seq<char>, from: nat)
    requires
        from <= t.len(),
    ensures
        from <= first_plus(t, from) <= t.len(),
    decreases t.len() - from,
{
    if from < t.len() && t[from as int] != '+' {
        lemma_first_plus_bounds(t, from + 1);
    }
}

fn version_char(c: char) -> (yes: bool)
    ensures
        yes == is_version_char(c),
{
    letter(c) || digit(c) || c == '-'
}

fn only_digits(t: &Vec<char>) -> (yes: bool)
    ensures
        yes == all_digits(t@),
{
    let mut i: usize = 0;
    while i < t.len()
        invariant
            i <= t@.len(),
            forall|k: int| 0 <= k < i ==> is_digit(t@[k]),
        decreases t@.len() - i,
    {
        if !digit(t[i]) {
            assert(!is_digit(t@[i as int]));
            return false;
        }
        i = i + 1;
    }
    true
}

fn only_version_chars(t: &Vec<char>) -> (yes: bool)
    ensures
        yes == all_version_chars(t@),
{
    let mut i: usize = 0;
    while i < t.len()
        invariant
            i <= t@.len(),
            forall|k: int| 0 <= k < i ==> is_version_char(t@[k]),
        decreases t@.len() - i,
    {
        if !version_char(t[i]) {
            assert(!is_version_char(t@[i as int]));
            return false;
        }
        i = i + 1;
    }
    true
}

fn number(t: &Vec<char>) -> (yes: bool)
    ensures
        yes == is_number(t@),
{
    t.len() >= 1 && only_digits(t) && (t.len() == 1 || t[0] != '0')
}

/// Whether the characters are an identifier of the given kind.
fn id_ok(t: &Vec<char>, kind: IdKind) -> (yes: bool)
    ensures
        yes == is_id(t@, kind),
{
    match kind {
        IdKind::Numeric => number(t),
        IdKind::Pre => {
            if t.len() == 0 || !only_version_chars(t) {
                false
            } else if only_digits(t) {
                number(t)
            } else {
                true
            }
        },
        IdKind::Build => t.len() >= 1 && only_version_chars(t),
    }
}

/// The characters from `from` up to, but not including, `to`.
fn cut(t: &Vec<char>, from: usize, to: usize) -> (part: Vec<char>)
    requires
        from <= to <= t@.len(),
    ensures
        part@ == t@.subrange(from as int, to as int),
{
    let mut part: Vec<char> = Vec::new();
    let mut i: usize = from;
    while i < to
        invariant
            from <= i <= to <= t@.len(),
            part@ == t@.subrange(from as int, i as int),
        decreases to - i,
    {
        part.push(t[i]);
        assert(t@.subrange(from as int, i + 1) == t@.subrange(from as int, i as int).push(
            t@[i as int],
        ));
        i = i + 1;
    }
    part
}

fn find_dot(t: &Vec<char>) -> (d: usize)
    ensures
        d == first_dot(t@, 0),
        d <= t@.len(),
{
    let mut i: usize = 0;
    while i < t.len() && t[i] != '.'
        invariant
            i <= t@.len(),
            first_dot(t@, i as nat) == first_dot(t@, 0),
        decreases t@.len() - i,
    {
        i = i + 1;
    }
    proof {
        lemma_first_dot_bounds(t@, i as nat);
    }
    i
}

fn find_sign(t: &Vec<char>) -> (p: usize)
    ensures
        p == first_sign(t@, 0),
        p <= t@.len(),
{
    let mut i: usize = 0;
    while i < t.len() && t[i] != '-' && t[i] != '+'
        invariant
            i <= t@.len(),
            first_sign(t@, i as nat) == first_sign(t@, 0),
        decreases t@.len() - i,
    {
        i = i + 1;
    }
    proof {
        lemma_first_sign_bounds(t@, i as nat);
    }
    i
}

fn find_plus(t: &Vec<char>, from: usize) -> (q: usize)
    requires
        from <= t@.len(),
    ensures
        q == first_plus(t@, from as nat),
        from <= q <= t@.len(),
{
    let mut i: usize = from;
    while i < t.len() && t[i] != '+'
        invariant
            from <= i <= t@.len(),
            first_plus(t@, i as nat) == first_plus(t@, from as nat),
        decreases t@.len() - i,
    {
        i = i + 1;
    }
    proof {
        lemma_first_plus_bounds(t@, i as nat);
    }
    i
}

/// Whether the characters are identifiers of the given kind, separated by
/// dots; and into how many parts the dots cut them, counted up to four.
fn check_dotted(t: Vec<char>, kind: IdKind) -> (result: (bool, usize))
    ensures
        result.0 == dotted(t@, kind),
        result.1 == (if parts(t@) < 4 {
            parts(t@)
        } else {
            4
        }),
{
    let ghost whole = t@;
    let mut rest = t;
    let mut ok = true;
    let mut count: usize = 0;
    let ghost mut seen: nat = 0;
    let mut going = true;
    while going
        invariant
            count == (if seen < 4 {
                seen
            } else {
                4
            }),
            going ==> dotted(whole, kind) == (ok && dotted(rest@, kind)),
            going ==> parts(whole) == seen + parts(rest@),
            !going ==> dotted(whole, kind) == ok && parts(whole) == seen,
        decreases
                (if going {
                    rest@.len() + 1
                } else {
                    0
                }),
    {
        let d = find_dot(&rest);
        let n = rest.len();
        if count < 4 {
            count = count + 1;
        }
        proof {
            seen = seen + 1;
        }
        if d >= n {
            ok = ok && id_ok(&rest, kind);
            going = false;
        } else {
            let head = cut(&rest, 0, d);
            ok = ok && id_ok(&head, kind);
            rest = cut(&rest, d + 1, n);
        }
    }
    (ok, count)
}

/// Whether the text is a semantic version.
pub fn semver_ok(text: &str) -> (ok: bool)
    ensures
        ok == is_semver(text@),
{
    let t = chars_of(text);
    let n = t.len();
    let p = find_sign(&t);
    let core = check_dotted(cut(&t, 0, p), IdKind::Numeric);
    if !core.0 || core.1 != 3 {
        return false;
    }
    if p >= n {
        return true;
    }
    if t[p] == '+' {
        return check_dotted(cut(&t, p + 1, n), IdKind::Build).0;
    }
    let q = find_plus(&t, p + 1);
    if !check_dotted(cut(&t, p + 1, q), IdKind::Pre).0 {
        return false;
    }
    if q >= n {
        return true;
    }
    check_dotted(cut(&t, q + 1, n), IdKind::Build).0
}

} // verus!
