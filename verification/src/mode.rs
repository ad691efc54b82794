//! Compatibility-mode resolution.
//!
//! Precedence ladder:
//! 1. an explicit `--strict` / `--no-strict` flag wins over everything;
//! 2. a truthy `RUSTY_PEE_STRICT` value (`1`, `true`, `yes`, `on`, in any
//!    ASCII case, surrounded by any white space) selects Strict mode;
//! 3. an `argv[0]` whose file stem is `pee` selects Strict mode;
//! 4. otherwise Default mode.

use vstd::prelude::*;

use crate::text::{chars_of, same_chars};
use crate::CompatibilityMode;

verus! {

/// Unicode `White_Space`, the set that `str::trim` strips.
pub open spec fn is_white_space(c: char) -> bool {
    let u = c as u32;
    ||| 0x9 <= u <= 0xd
    ||| u == 0x20
    ||| u == 0x85
    ||| u == 0xa0
    ||| u == 0x1680
    ||| 0x2000 <= u <= 0x200a
    ||| u == 0x2028
    ||| u == 0x2029
    ||| u == 0x202f
    ||| u == 0x205f
    ||| u == 0x3000
}

/// `s` without its leading white space.
pub open spec fn trim_start(s: Seq<char>) -> Seq<char>
    decreases s.len(),
{
    if s.len() > 0 && is_white_space(s[0]) {
        trim_start(s.drop_first())
    } else {
        s
    }
}

/// `s` without its trailing white space.
pub open spec fn trim_end(s: Seq<char>) -> Seq<char>
    decreases s.len(),
{
    if s.len() > 0 && is_white_space(s.last()) {
        trim_end(s.drop_last())
    } else {
        s
    }
}

/// `s` without leading and trailing white space.
pub open spec fn trim(s: Seq<char>) -> Seq<char> {
    trim_end(trim_start(s))
}

/// ASCII lower-casing of one character; other characters are unchanged.
pub open spec fn ascii_lower(c: char) -> char {
    if 'A' <= c <= 'Z' {
        ((c as u32) + 32) as char
    } else {
        c
    }
}

/// Whether an environment value counts as "on".
pub open spec fn env_is_truthy(value: Seq<char>) -> bool {
    let w = trim(value).map_values(|c: char| ascii_lower(c));
    w == "1"@ || w == "true"@ || w == "yes"@ || w == "on"@
}

/// Index of the last `c` in `s`, or -1.
pub open spec fn last_index_of(s: Seq<char>, c: char) -> int
    decreases s.len(),
{
    if s.len() == 0 {
        -1
    } else if s.last() == c {
        s.len() - 1
    } else {
        last_index_of(s.drop_last(), c)
    }
}

/// The stem of a file name, as `Path::file_stem` documents it: the whole name
/// when it holds no `.`, or when it begins with `.` and holds no other `.`;
/// otherwise the part before the final `.`.
pub open spec fn stem_of_name(name: Seq<char>) -> Seq<char> {
    let k = last_index_of(name, '.');
    if k < 0 || k == 0 {
        name
    } else {
        name.take(k)
    }
}

/// Names what `std::path::Path::file_name` gives for a path written as text.
pub uninterp spec fn path_file_name(path: Seq<char>) -> Option<Seq<char>>;

/// Whether a program invoked under the file name `name` runs in Strict mode.
pub open spec fn name_implies_strict(name: Seq<char>) -> bool {
    stem_of_name(name) == "pee"@
}

/// The mode for an explicit flag, the truthiness of the environment value and
/// whether `argv[0]` names `pee`.
pub open spec fn ladder(flag: Option<bool>, env_truthy: bool, argv0_strict: bool) -> CompatibilityMode {
    match flag {
        Some(true) => CompatibilityMode::Strict,
        Some(false) => CompatibilityMode::Default,
        None => if env_truthy || argv0_strict {
            CompatibilityMode::Strict
        } else {
            CompatibilityMode::Default
        },
    }
}

/// The environment rung of the ladder for an optional value.
pub open spec fn env_rung(env_strict: Option<Seq<char>>) -> bool {
    match env_strict {
        Some(v) => env_is_truthy(v),
        None => false,
    }
}

/// The `argv[0]` rung of the ladder for an optional file name.
pub open spec fn name_rung(file_name: Option<Seq<char>>) -> bool {
    match file_name {
        Some(n) => name_implies_strict(n),
        None => false,
    }
}

/// The view of an optional text.
pub open spec fn opt_view(s: Option<&str>) -> Option<Seq<char>> {
    match s {
        Some(t) => Some(t@),
        None => None,
    }
}

/// The file name that `path` ends in, if any.
pub open spec fn argv0_file_name(argv0: Option<Seq<char>>) -> Option<Seq<char>> {
    match argv0 {
        Some(a) => path_file_name(a),
        None => None,
    }
}

/// `std::path::Path::file_name` on a path given as text: the final component
/// of the path, when it is a normal one. The contract claims only that the
/// answer is the named function of the path; which components the platform's
/// path syntax yields is left unsaid.
#[verifier::external_body]
fn file_name_of(path: &str) -> (r: Option<&str>)
    ensures
        opt_view(r) == path_file_name(path@),
{
    match std::path::Path::new(path).file_name() {
        Some(name) => name.to_str(),
        None => None,
    }
}

fn is_white_space_char(c: char) -> (r: bool)
    ensures
        r == is_white_space(c),
{
    let u = c as u32;
    (0x9 <= u && u <= 0xd) || u == 0x20 || u == 0x85 || u == 0xa0 || u == 0x1680 || (0x2000 <= u
        && u <= 0x200a) || u == 0x2028 || u == 0x2029 || u == 0x202f || u == 0x205f || u == 0x3000
}

fn lower_char(c: char) -> (r: char)
    ensures
        r == ascii_lower(c),
{
    if 'A' <= c && c <= 'Z' {
        ((c as u8) + 32) as char
    } else {
        c
    }
}

/// The characters of `value` without surrounding white space, ASCII-lower-cased.
fn trimmed_lower(value: &str) -> (r: Vec<char>)
    ensures
        r@ == trim(value@).map_values(|c: char| ascii_lower(c)),
{
    let cs = chars_of(value);
    let n = cs.len();
    let mut a: usize = 0;
    assert(cs@.subrange(0, n as int) =~= cs@);
    while a < n && is_white_space_char(cs[a])
        invariant
            n == cs@.len(),
            a <= n,
            trim_start(cs@.subrange(a as int, n as int)) == trim_start(cs@),
        decreases n - a,
    {
        assert(cs@.subrange(a as int, n as int).drop_first() =~= cs@.subrange(a + 1, n as int));
        a = a + 1;
    }
    let mut b: usize = n;
    while b > a && is_white_space_char(cs[b - 1])
        invariant
            n == cs@.len(),
            a <= b <= n,
            trim_end(cs@.subrange(a as int, b as int)) == trim_end(cs@.subrange(a as int, n as int)),
        decreases b - a,
    {
        assert(cs@.subrange(a as int, b as int).drop_last() =~= cs@.subrange(a as int, b - 1));
        b = b - 1;
    }
    let mut out: Vec<char> = Vec::new();
    let mut i: usize = a;
    while i < b
        invariant
            n == cs@.len(),
            a <= i <= b <= n,
            out@ =~= cs@.subrange(a as int, i as int).map_values(|c: char| ascii_lower(c)),
        decreases b - i,
    {
        out.push(lower_char(cs[i]));
        i = i + 1;
    }
    assert(trim(cs@) == cs@.subrange(a as int, b as int));
    out
}

/// Whether an environment value turns Strict mode on: after trimming white
/// space and ASCII lower-casing it is one of `1`, `true`, `yes`, `on`.
pub fn env_var_is_truthy(value: &str) -> (r: bool)
    ensures
        r == env_is_truthy(value@),
{
    let w = trimmed_lower(value);
    same_chars(&w, &chars_of("1")) || same_chars(&w, &chars_of("true")) || same_chars(
        &w,
        &chars_of("yes"),
    ) || same_chars(&w, &chars_of("on"))
}

/// Whether a file name's stem is `pee`.
pub fn file_name_implies_strict(name: &str) -> (r: bool)
    ensures
        r == name_implies_strict(name@),
{
    let cs = chars_of(name);
    let n = cs.len();
    let mut k: usize = n;
    assert(cs@.take(n as int) =~= cs@);
    while k > 0 && cs[k - 1] != '.'
        invariant
            n == cs@.len(),
            k <= n,
            last_index_of(cs@.take(k as int), '.') == last_index_of(cs@, '.'),
        decreases k,
    {
        assert(cs@.take(k as int).drop_last() =~= cs@.take(k - 1));
        k = k - 1;
    }
    let stem_len: usize = if k <= 1 {
        n
    } else {
        k - 1
    };
    proof {
        if k > 0 {
            assert(last_index_of(cs@.take(k as int), '.') == k - 1);
        }
    }
    let mut stem: Vec<char> = Vec::new();
    let mut i: usize = 0;
    while i < stem_len
        invariant
            n == cs@.len(),
            stem_len <= n,
            i <= stem_len,
            stem@ =~= cs@.take(i as int),
        decreases stem_len - i,
    {
        stem.push(cs[i]);
        i = i + 1;
    }
    same_chars(&stem, &chars_of("pee"))
}

/// Whether `argv[0]` names `pee`: its file name's stem is `pee`.
pub fn argv0_implies_strict(arg0: &str) -> (r: bool)
    ensures
        r == name_rung(path_file_name(arg0@)),
{
    match file_name_of(arg0) {
        Some(name) => file_name_implies_strict(name),
        None => false,
    }
}

/// Resolve the compatibility mode from the explicit flag, the value of
/// `RUSTY_PEE_STRICT` (when it is set and is text), and `argv[0]`.
pub fn resolve(strict_flag: Option<bool>, env_strict: Option<&str>, argv0: Option<&str>) -> (r:
    CompatibilityMode)
    ensures
        r == ladder(
            strict_flag,
            env_rung(opt_view(env_strict)),
            name_rung(argv0_file_name(opt_view(argv0))),
        ),
{
    if let Some(flag) = strict_flag {
        return if flag {
            CompatibilityMode::Strict
        } else {
            CompatibilityMode::Default
        };
    }
    if let Some(value) = env_strict {
        if env_var_is_truthy(value) {
            return CompatibilityMode::Strict;
        }
    }
    if let Some(arg0) = argv0 {
        if argv0_implies_strict(arg0) {
            return CompatibilityMode::Strict;
        }
    }
    CompatibilityMode::Default
}


/// An explicit `--strict` / `--no-strict` wins over the environment and `argv[0]`.
pub proof fn lemma_explicit_flag_wins(flag: bool, env_truthy: bool, argv0_strict: bool)
    ensures
        ladder(Some(flag), env_truthy, argv0_strict) == (if flag {
            CompatibilityMode::Strict
        } else {
            CompatibilityMode::Default
        }),
{
}

/// Without a flag, a truthy environment value selects Strict mode whatever
/// `argv[0]` is, and a falsy or missing one leaves the choice to `argv[0]`.
pub proof fn lemma_env_beats_argv0(argv0_strict: bool)
    ensures
        ladder(None, true, argv0_strict) == CompatibilityMode::Strict,
        ladder(None, false, argv0_strict) == (if argv0_strict {
            CompatibilityMode::Strict
        } else {
            CompatibilityMode::Default
        }),
{
}

/// With nothing set, the mode is Default.
pub proof fn lemma_default_when_nothing_set()
    ensures
        ladder(None, env_rung(None), name_rung(None)) == CompatibilityMode::Default,
{
}

proof fn lemma_trim_start_push(v: Seq<char>, c: char)
    ensures
        trim_start(v.push(c)) == (if trim_start(v).len() == 0 {
            trim_start(seq![c])
        } else {
            trim_start(v).push(c)
        }),
        trim_start(v).len() == 0 ==> trim_start(v) == Seq::<char>::empty(),
    decreases v.len(),
{
    if v.len() == 0 {
        assert(v.push(c) =~= seq![c]);
    } else {
        assert(v.push(c).drop_first() =~= v.drop_first().push(c));
        assert(v.push(c)[0] == v[0]);
        lemma_trim_start_push(v.drop_first(), c);
    }
}

/// White space around an environment value does not change its meaning.
pub proof fn lemma_truthy_ignores_surrounding_white_space(v: Seq<char>, w: char)
    requires
        is_white_space(w),
    ensures
        env_is_truthy(seq![w] + v) == env_is_truthy(v),
        env_is_truthy(v.push(w)) == env_is_truthy(v),
{
    assert((seq![w] + v).drop_first() =~= v);
    assert(trim_start(seq![w] + v) == trim_start(v));
    lemma_trim_start_push(v, w);
    if trim_start(v).len() == 0 {
        assert(seq![w].drop_first() =~= Seq::<char>::empty());
        assert(seq![w][0] == w);
        assert(trim_start(Seq::<char>::empty()) == Seq::<char>::empty());
        assert(trim_start(seq![w]) == trim_start(seq![w].drop_first()));
    } else {
        assert(trim_start(v).push(w).drop_last() =~= trim_start(v));
    }
}

/// ASCII upper-casing of one character; other characters are unchanged.
pub open spec fn ascii_upper(c: char) -> char {
    if 'a' <= c <= 'z' {
        ((c as u32) - 32) as char
    } else {
        c
    }
}

proof fn lemma_upper_char(c: char)
    ensures
        is_white_space(ascii_upper(c)) == is_white_space(c),
        ascii_lower(ascii_upper(c)) == ascii_lower(c),
{
    if 'a' <= c <= 'z' {
        let u = ((c as u32) - 32) as char;
        assert(u as u32 == (c as u32) - 32);
        assert('A' <= u <= 'Z');
        assert(((u as u32) + 32) as char == c);
    }
}

proof fn lemma_trim_upper(v: Seq<char>)
    ensures
        trim_start(v.map_values(|c: char| ascii_upper(c))) == trim_start(v).map_values(
            |c: char| ascii_upper(c),
        ),
        trim_end(v.map_values(|c: char| ascii_upper(c))) == trim_end(v).map_values(
            |c: char| ascii_upper(c),
        ),
    decreases v.len(),
{
    let u = v.map_values(|c: char| ascii_upper(c));
    if v.len() > 0 {
        lemma_upper_char(v[0]);
        lemma_upper_char(v.last());
        assert(u.drop_first() =~= v.drop_first().map_values(|c: char| ascii_upper(c)));
        assert(u.drop_last() =~= v.drop_last().map_values(|c: char| ascii_upper(c)));
        lemma_trim_upper(v.drop_first());
        lemma_trim_upper(v.drop_last());
    }
}

/// The ASCII case of an environment value does not change its meaning.
pub proof fn lemma_truthy_ignores_case(v: Seq<char>)
    ensures
        env_is_truthy(v.map_values(|c: char| ascii_upper(c))) == env_is_truthy(v),
{
    let u = v.map_values(|c: char| ascii_upper(c));
    lemma_trim_upper(v);
    lemma_trim_upper(trim_start(v));
    let t = trim(v);
    assert(trim(u) == t.map_values(|c: char| ascii_upper(c)));
    assert forall|i: int| 0 <= i < t.len() implies ascii_lower(ascii_upper(t[i])) == ascii_lower(
        t[i],
    ) by {
        lemma_upper_char(t[i]);
    }
    assert(trim(u).map_values(|c: char| ascii_lower(c)) =~= t.map_values(
        |c: char| ascii_lower(c),
    ));
}

} // verus!
