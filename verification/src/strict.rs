//! Strict moreutils-compat argument handling.
//!
//! Strict mode bypasses the Default-mode parser: a hand-rolled scan of argv
//! stops at the first unknown flag, which is reported alone.
//!
//! | argument                    | meaning                                          |
//! |-----------------------------|--------------------------------------------------|
//! | `--`                        | end of options; every later argument is a command |
//! | `--strict` / `--no-strict`  | consumed by mode resolution; skipped              |
//! | `completions` (first)       | rejected as an unknown option                     |
//! | `--name` / `--name=value`   | rejected as unknown option `name`                 |
//! | `-x...`                     | rejected as invalid option `x`                    |
//! | anything else               | a command string                                  |

use vstd::prelude::*;

use crate::text::{chars_of, push_char, same_chars, string_from_chars};

verus! {

/// The first unknown flag met by the Strict-mode parser.
#[derive(Debug, Clone, PartialEq, Eq)]
pub enum UnknownFlag {
    /// A short flag, e.g. `-x` gives `Short('x')`.
    Short(char),
    /// A long flag without its `--` prefix, e.g. `--foo` gives `Long("foo")`.
    Long(String),
}

/// The mathematical value of an [`UnknownFlag`].
pub enum FlagView {
    Short(char),
    Long(Seq<char>),
}

impl View for UnknownFlag {
    type V = FlagView;

    open spec fn view(&self) -> FlagView {
        match self {
            UnknownFlag::Short(c) => FlagView::Short(*c),
            UnknownFlag::Long(name) => FlagView::Long(name@),
        }
    }
}

/// The commands found by the Strict-mode parser, in argv order.
#[derive(Debug, Default)]
pub struct StrictArgs {
    pub commands: Vec<String>,
}

/// The views of a sequence of strings.
pub open spec fn texts(v: Seq<String>) -> Seq<Seq<char>> {
    v.map_values(|s: String| s@)
}

/// The characters of `s` before its first `c` (all of `s` when there is none).
pub open spec fn take_until(s: Seq<char>, c: char) -> Seq<char>
    decreases s.len(),
{
    if s.len() == 0 {
        s
    } else if s[0] == c {
        Seq::empty()
    } else {
        seq![s[0]] + take_until(s.drop_first(), c)
    }
}

/// Whether `s` starts with `--`.
pub open spec fn is_long_form(s: Seq<char>) -> bool {
    s.len() >= 2 && s[0] == '-' && s[1] == '-'
}

/// Whether `s` is `-` followed by at least one character.
pub open spec fn is_short_form(s: Seq<char>) -> bool {
    s.len() >= 2 && s[0] == '-'
}

/// `r` with `prefix` put in front of its commands.
pub open spec fn prefixed(
    prefix: Seq<Seq<char>>,
    r: Result<Seq<Seq<char>>, FlagView>,
) -> Result<Seq<Seq<char>>, FlagView> {
    match r {
        Ok(c) => Ok(prefix + c),
        Err(e) => Err(e),
    }
}

/// The Strict-mode parse of the arguments after the program name; `first`
/// tells whether no command has been seen yet.
pub open spec fn parse_rest(args: Seq<Seq<char>>, first: bool) -> Result<Seq<Seq<char>>, FlagView>
    decreases args.len(),
{
    if args.len() == 0 {
        Ok(Seq::empty())
    } else {
        let s = args[0];
        let rest = args.drop_first();
        if s == "--strict"@ || s == "--no-strict"@ {
            parse_rest(rest, first)
        } else if s == "--"@ {
            Ok(rest)
        } else if first && s == "completions"@ {
            Err(FlagView::Long("completions"@))
        } else if is_long_form(s) {
            Err(FlagView::Long(take_until(s.skip(2), '=')))
        } else if is_short_form(s) {
            Err(FlagView::Short(s[1]))
        } else {
            prefixed(seq![s], parse_rest(rest, false))
        }
    }
}

/// The Strict-mode parse of a whole argv (program name first).
pub open spec fn parse_spec(argv: Seq<Seq<char>>) -> Result<Seq<Seq<char>>, FlagView> {
    if argv.len() == 0 {
        Ok(Seq::empty())
    } else {
        parse_rest(argv.drop_first(), true)
    }
}

/// The flag chosen by the arguments after the program name, starting from `chosen`.
pub open spec fn pre_scan_rest(args: Seq<Seq<char>>, chosen: Option<bool>) -> Option<bool>
    decreases args.len(),
{
    if args.len() == 0 {
        chosen
    } else if args[0] == "--strict"@ {
        pre_scan_rest(args.drop_first(), Some(true))
    } else if args[0] == "--no-strict"@ {
        pre_scan_rest(args.drop_first(), Some(false))
    } else if args[0] == "--"@ {
        chosen
    } else {
        pre_scan_rest(args.drop_first(), chosen)
    }
}

/// The `--strict` / `--no-strict` choice of a whole argv: the last one before
/// any `--`, if there is one.
pub open spec fn pre_scan_spec(argv: Seq<Seq<char>>) -> Option<bool> {
    if argv.len() == 0 {
        None
    } else {
        pre_scan_rest(argv.drop_first(), None)
    }
}

/// The message for an unknown flag.
pub open spec fn unknown_flag_message(flag: FlagView) -> Seq<char> {
    match flag {
        FlagView::Short(c) => "rusty-pee: invalid option -- '"@ + seq![c] + "'"@,
        FlagView::Long(name) => "rusty-pee: unknown option -- '"@ + name + "'"@,
    }
}

/// The message for a command that could not be spawned.
pub open spec fn spawn_failure_message(cmd: Seq<char>) -> Seq<char> {
    "pee: Can not open pipe to '"@ + cmd + "'"@
}

/// Format the single error line for the first unknown flag.
pub fn format_unknown_flag(flag: &UnknownFlag) -> (r: String)
    ensures
        r@ == unknown_flag_message(flag@),
{
    match flag {
        UnknownFlag::Short(c) => {
            let mut s = String::from_str("rusty-pee: invalid option -- '");
            push_char(&mut s, *c);
            s.append("'");
            s
        },
        UnknownFlag::Long(name) => {
            let mut s = String::from_str("rusty-pee: unknown option -- '");
            s.append(name.as_str());
            s.append("'");
            s
        },
    }
}

/// Format the moreutils spawn-failure line (note the two-word "Can not").
pub fn format_spawn_failure(cmd: &str) -> (r: String)
    ensures
        r@ == spawn_failure_message(cmd@),
{
    let mut s = String::from_str("pee: Can not open pipe to '");
    s.append(cmd);
    s.append("'");
    s
}


/// Whether `s` spells `word`, given the characters of both.
fn is_word(cs: &Vec<char>, word: &str) -> (r: bool)
    ensures
        r == (cs@ == word@),
{
    same_chars(cs, &chars_of(word))
}

/// The name of a long flag: the characters after `--` and before the first `=`.
fn long_flag_name(cs: &Vec<char>) -> (r: String)
    requires
        cs@.len() >= 2,
    ensures
        r@ == take_until(cs@.skip(2), '='),
{
    let n = cs.len();
    let mut name: Vec<char> = Vec::new();
    let mut i: usize = 2;
    while i < n && cs[i] != '='
        invariant
            n == cs@.len(),
            2 <= i <= n,
            take_until(cs@.skip(2), '=') == name@ + take_until(cs@.skip(i as int), '='),
        decreases n - i,
    {
        assert(cs@.skip(i as int).drop_first() =~= cs@.skip(i + 1));
        assert(name@.push(cs@[i as int]) + take_until(cs@.skip(i + 1), '=') =~= name@ + (seq![
            cs@[i as int],
        ] + take_until(cs@.skip(i + 1), '=')));
        name.push(cs[i]);
        i = i + 1;
    }
    assert(take_until(cs@.skip(i as int), '=') =~= Seq::<char>::empty());
    assert(name@ + Seq::<char>::empty() =~= name@);
    string_from_chars(name.as_slice())
}

/// Parse argv (program name first) by the Strict-mode rules. The first unknown
/// flag ends the scan with `Err`; otherwise the commands come back in argv order.
pub fn parse_argv(argv: &[String]) -> (r: Result<StrictArgs, UnknownFlag>)
    ensures
        match r {
            Ok(a) => parse_spec(texts(argv@)) == Ok::<Seq<Seq<char>>, FlagView>(texts(a.commands@)),
            Err(e) => parse_spec(texts(argv@)) == Err::<Seq<Seq<char>>, FlagView>(e@),
        },
        r is Ok && argv@.len() > 0 ==> forall|i: int|
            0 <= i < argv@.len() - 1 && before_double_dash(texts(argv@).drop_first(), i)
                ==> is_mode_flag(#[trigger] texts(argv@).drop_first()[i]) || !looks_like_option(
                texts(argv@).drop_first()[i],
            ),
{
    let ghost all = texts(argv@);
    let mut out: Vec<String> = Vec::new();
    let n = argv.len();
    if n == 0 {
        assert(texts(out@) =~= Seq::<Seq<char>>::empty());
        return Ok(StrictArgs { commands: out });
    }
    let mut first = true;
    let mut i: usize = 1;
    assert(all.skip(1) =~= all.drop_first());
    assert(texts(out@) =~= Seq::<Seq<char>>::empty());
    while i < n
        invariant
            n == argv@.len(),
            all == texts(argv@),
            1 <= i <= n,
            parse_spec(all) == prefixed(texts(out@), parse_rest(all.skip(i as int), first)),
        decreases n - i,
    {
        let ghost tail = all.skip(i as int);
        assert(tail[0] == argv@[i as int]@);
        assert(tail.drop_first() =~= all.skip(i + 1));
        let cs = chars_of(argv[i].as_str());
        if is_word(&cs, "--strict") || is_word(&cs, "--no-strict") {
            i = i + 1;
        } else if is_word(&cs, "--") {
            let ghost before = texts(out@);
            let mut j: usize = i + 1;
            while j < n
                invariant
                    n == argv@.len(),
                    all == texts(argv@),
                    i < j <= n,
                    texts(out@) =~= before + all.subrange(i + 1, j as int),
                decreases n - j,
            {
                let ghost prev = texts(out@);
                out.push(argv[j].clone());
                assert(texts(out@) =~= prev.push(all[j as int]));
                assert(all.subrange(i + 1, j + 1) =~= all.subrange(i + 1, j as int).push(
                    all[j as int],
                ));
                j = j + 1;
            }
            assert(all.subrange(i + 1, n as int) =~= tail.drop_first());
            proof {
                lemma_ok_only_without_options(all.drop_first(), true);
            }
            return Ok(StrictArgs { commands: out });
        } else if first && is_word(&cs, "completions") {
            return Err(UnknownFlag::Long(String::from_str("completions")));
        } else if cs.len() >= 2 && cs[0] == '-' && cs[1] == '-' {
            return Err(UnknownFlag::Long(long_flag_name(&cs)));
        } else if cs.len() >= 2 && cs[0] == '-' {
            return Err(UnknownFlag::Short(cs[1]));
        } else {
            let ghost before = texts(out@);
            let ghost rest = parse_rest(all.skip(i + 1), false);
            out.push(argv[i].clone());
            assert(texts(out@) =~= before + seq![tail[0]]);
            proof {
                if let Ok(c) = rest {
                    assert(before + (seq![tail[0]] + c) =~= (before + seq![tail[0]]) + c);
                }
            }
            first = false;
            i = i + 1;
        }
    }
    assert(texts(out@) + Seq::<Seq<char>>::empty() =~= texts(out@));
    proof {
        lemma_ok_only_without_options(all.drop_first(), true);
    }
    Ok(StrictArgs { commands: out })
}

/// Scan argv (program name first) for `--strict` / `--no-strict` before any
/// `--`; the last one wins.
pub fn pre_scan_strict_flag(argv: &[String]) -> (r: Option<bool>)
    ensures
        r == pre_scan_spec(texts(argv@)),
{
    let ghost all = texts(argv@);
    let n = argv.len();
    if n == 0 {
        return None;
    }
    let mut chosen: Option<bool> = None;
    let mut i: usize = 1;
    assert(all.skip(1) =~= all.drop_first());
    while i < n
        invariant
            n == argv@.len(),
            all == texts(argv@),
            1 <= i <= n,
            pre_scan_spec(all) == pre_scan_rest(all.skip(i as int), chosen),
        decreases n - i,
    {
        let ghost tail = all.skip(i as int);
        assert(tail[0] == argv@[i as int]@);
        assert(tail.drop_first() =~= all.skip(i + 1));
        let cs = chars_of(argv[i].as_str());
        if is_word(&cs, "--strict") {
            chosen = Some(true);
        } else if is_word(&cs, "--no-strict") {
            chosen = Some(false);
        } else if is_word(&cs, "--") {
            return chosen;
        }
        i = i + 1;
    }
    chosen
}


/// Whether `s` is one of the mode flags consumed before parsing.
pub open spec fn is_mode_flag(s: Seq<char>) -> bool {
    s == "--strict"@ || s == "--no-strict"@
}

/// After `--`, every argument is a command, taken verbatim.
pub proof fn lemma_after_double_dash_all_commands(post: Seq<Seq<char>>, first: bool)
    ensures
        parse_rest(seq!["--"@] + post, first) == Ok::<Seq<Seq<char>>, FlagView>(post),
{
    let args = seq!["--"@] + post;
    assert(args[0] == "--"@);
    assert(args.drop_first() =~= post);
    assert("--"@ != "--strict"@) by {
        reveal_strlit("--");
        reveal_strlit("--strict");
    }
    assert("--"@ != "--no-strict"@) by {
        reveal_strlit("--");
        reveal_strlit("--no-strict");
    }
}

/// `completions` is refused only before the first command; after one it is
/// an ordinary command string.
pub proof fn lemma_completions_only_refused_first(rest: Seq<Seq<char>>)
    ensures
        parse_rest(seq!["completions"@] + rest, true) == Err::<Seq<Seq<char>>, FlagView>(
            FlagView::Long("completions"@),
        ),
        parse_rest(seq!["completions"@] + rest, false) == prefixed(
            seq!["completions"@],
            parse_rest(rest, false),
        ),
{
    let args = seq!["completions"@] + rest;
    assert(args[0] == "completions"@);
    assert(args.drop_first() =~= rest);
    reveal_strlit("completions");
    reveal_strlit("--strict");
    reveal_strlit("--no-strict");
    reveal_strlit("--");
    assert("completions"@.len() == 11);
    assert("--strict"@.len() == 8);
    assert("--"@.len() == 2);
    assert("--no-strict"@.len() == 11);
    assert("completions"@[0] == 'c');
    assert("--no-strict"@[0] == '-');
    assert("completions"@ != "--no-strict"@);
    assert(!is_long_form("completions"@));
    assert(!is_short_form("completions"@));
}

/// Whether `s` looks like an option: `-` followed by at least one character.
pub open spec fn looks_like_option(s: Seq<char>) -> bool {
    s.len() >= 2 && s[0] == '-'
}

/// Whether no argument of `args` up to and including position `i` is `--`.
pub open spec fn before_double_dash(args: Seq<Seq<char>>, i: int) -> bool {
    forall|j: int| 0 <= j <= i ==> args[j] != "--"@
}

/// A Strict-mode parse succeeds only when every argument before the first
/// `--` is a mode flag or does not look like an option: an unknown flag is
/// refused wherever it stands, after commands too.
pub proof fn lemma_ok_only_without_options(args: Seq<Seq<char>>, first: bool)
    ensures
        parse_rest(args, first) is Ok ==> forall|i: int|
            0 <= i < args.len() && before_double_dash(args, i) ==> is_mode_flag(#[trigger] args[i])
                || !looks_like_option(args[i]),
    decreases args.len(),
{
    if args.len() > 0 {
        let rest = args.drop_first();
        lemma_ok_only_without_options(rest, first);
        lemma_ok_only_without_options(rest, false);
        if parse_rest(args, first) is Ok {
            assert forall|i: int|
                0 <= i < args.len() && before_double_dash(args, i) implies is_mode_flag(
                #[trigger] args[i],
            ) || !looks_like_option(args[i]) by {
                assert(args[0] != "--"@);
                if i > 0 {
                    assert(rest[i - 1] == args[i]);
                    assert(before_double_dash(rest, i - 1)) by {
                        assert forall|j: int| 0 <= j <= i - 1 implies rest[j] != "--"@ by {
                            assert(rest[j] == args[j + 1]);
                        }
                    }
                }
            }
        }
    }
}

/// A mode flag before any `--` is skipped: removing it changes nothing.
pub proof fn lemma_mode_flag_skipped(
    pre: Seq<Seq<char>>,
    f: Seq<char>,
    post: Seq<Seq<char>>,
    first: bool,
)
    requires
        is_mode_flag(f),
        !pre.contains("--"@),
    ensures
        parse_rest(pre + seq![f] + post, first) == parse_rest(pre + post, first),
    decreases pre.len(),
{
    let whole = pre + seq![f] + post;
    if pre.len() == 0 {
        assert(whole[0] == f);
        assert(whole.drop_first() =~= post);
        assert(pre + post =~= post);
    } else {
        let s = pre[0];
        let short = pre + post;
        assert(whole[0] == s);
        assert(short[0] == s);
        assert(whole.drop_first() =~= pre.drop_first() + seq![f] + post);
        assert(short.drop_first() =~= pre.drop_first() + post);
        assert(!pre.drop_first().contains("--"@)) by {
            if pre.drop_first().contains("--"@) {
                let k = choose|k: int| 0 <= k < pre.drop_first().len() && pre.drop_first()[k]
                    == "--"@;
                assert(pre[k + 1] == "--"@);
            }
        }
        assert(s != "--"@) by {
            if s == "--"@ {
                assert(pre[0] == "--"@);
            }
        }
        lemma_mode_flag_skipped(pre.drop_first(), f, post, first);
        lemma_mode_flag_skipped(pre.drop_first(), f, post, false);
    }
}

/// The last mode flag before any `--` decides the pre-scan.
pub proof fn lemma_pre_scan_last_flag_wins(
    args: Seq<Seq<char>>,
    chosen: Option<bool>,
    f: Seq<char>,
)
    requires
        is_mode_flag(f),
        !args.contains("--"@),
    ensures
        pre_scan_rest(args + seq![f], chosen) == Some(f == "--strict"@),
    decreases args.len(),
{
    let whole = args + seq![f];
    assert("--strict"@ != "--no-strict"@) by {
        reveal_strlit("--strict");
        reveal_strlit("--no-strict");
        assert("--strict"@.len() == 8);
        assert("--no-strict"@.len() == 11);
    }
    if args.len() == 0 {
        assert(whole =~= seq![f]);
        assert(whole[0] == f);
        assert(whole.drop_first() =~= Seq::<Seq<char>>::empty());
        assert(pre_scan_rest(whole.drop_first(), Some(true)) == Some(true));
        assert(pre_scan_rest(whole.drop_first(), Some(false)) == Some(false));
    } else {
        assert(whole[0] == args[0]);
        assert(whole.drop_first() =~= args.drop_first() + seq![f]);
        assert(!args.drop_first().contains("--"@)) by {
            if args.drop_first().contains("--"@) {
                let k = choose|k: int| 0 <= k < args.drop_first().len() && args.drop_first()[k]
                    == "--"@;
                assert(args[k + 1] == "--"@);
            }
        }
        assert(args[0] != "--"@);
        lemma_pre_scan_last_flag_wins(args.drop_first(), Some(true), f);
        lemma_pre_scan_last_flag_wins(args.drop_first(), Some(false), f);
        lemma_pre_scan_last_flag_wins(args.drop_first(), chosen, f);
    }
}

} // verus!
