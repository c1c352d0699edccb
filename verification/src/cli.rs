//! The command line: which mode to run in, the switches, the address given
//! with `--url`, and the one-letter answers typed at the prompts.

use vstd::prelude::*;
use vstd::string::*;
use crate::text::str_eq;

verus! {

/// Whether the program shows its window or asks its questions on the
/// terminal.
#[derive(Clone, Copy, Debug, PartialEq, Eq, Structural)]
pub enum Mode {
    Cli,
    Gui,
}

/// What the command line says about the page address.
#[derive(Debug, PartialEq, Eq)]
pub enum UrlArgument {
    /// No `--url` or `-u`: the address is asked for.
    NotGiven,
    /// `--url` or `-u` came last, with nothing after it.
    Missing,
    /// The argument after the first `--url` or `-u`.
    Given(String),
}

/// What the command line asks for.
#[derive(Debug, PartialEq, Eq)]
pub struct CommandLine {
    pub mode: Mode,
    pub cli_requested: bool,
    pub debug: bool,
    pub override_existing: bool,
    pub help: bool,
    pub url: UrlArgument,
}

/// The arguments that are read: when the program got no argument beyond
/// its own name, it reads them as `--gui` followed by an empty argument.
pub open spec fn effective_args(args: Seq<Seq<char>>) -> Seq<Seq<char>> {
    if args.len() <= 1 {
        args + seq!["--gui"@, ""@]
    } else {
        args
    }
}

/// One of the arguments is `a` or `b`.
pub open spec fn has_either(args: Seq<Seq<char>>, a: Seq<char>, b: Seq<char>) -> bool {
    args.contains(a) || args.contains(b)
}

/// The mode: `--cli`/`-c` wins; otherwise `--gui`/`-g` (or no argument at
/// all) shows the window; otherwise the terminal is used.
pub open spec fn mode_of(args: Seq<Seq<char>>) -> Mode {
    let a = effective_args(args);
    if has_either(a, "--cli"@, "-c"@) {
        Mode::Cli
    } else if has_either(a, "--gui"@, "-g"@) {
        Mode::Gui
    } else {
        Mode::Cli
    }
}

/// Switches overriding existing files: `-o`, the documented `--overrride`,
/// and `--ovveride`.
pub open spec fn override_requested(args: Seq<Seq<char>>) -> bool {
    let a = effective_args(args);
    has_either(a, "--overrride"@, "-o"@) || a.contains("--ovveride"@)
}

/// An argument that announces the address.
pub open spec fn is_url_flag(arg: Seq<char>) -> bool {
    arg == "--url"@ || arg == "-u"@
}

/// Position of the first `--url` or `-u`, or -1 when there is none.
pub open spec fn url_flag_index(args: Seq<Seq<char>>) -> int
    decreases args.len(),
{
    if args.len() == 0 {
        -1
    } else {
        let r = url_flag_index(args.drop_last());
        if r >= 0 {
            r
        } else if is_url_flag(args.last()) {
            args.len() - 1
        } else {
            -1
        }
    }
}

/// What the command line says about the address.
pub enum UrlModel {
    NotGiven,
    Missing,
    Given(Seq<char>),
}

/// The address argument of `args`.
pub open spec fn url_of(args: Seq<Seq<char>>) -> UrlModel {
    let a = effective_args(args);
    let i = url_flag_index(a);
    if i < 0 {
        UrlModel::NotGiven
    } else if i + 1 < a.len() {
        UrlModel::Given(a[i + 1])
    } else {
        UrlModel::Missing
    }
}

impl View for UrlArgument {
    type V = UrlModel;

    open spec fn view(&self) -> UrlModel {
        match self {
            UrlArgument::NotGiven => UrlModel::NotGiven,
            UrlArgument::Missing => UrlModel::Missing,
            UrlArgument::Given(u) => UrlModel::Given(u@),
        }
    }
}

/// Whether one of `args` is `a` or `b`.
fn any_arg_is(args: &Vec<String>, a: &str, b: &str) -> (r: bool)
    ensures
        r == has_either(args.deep_view(), a@, b@),
{
    let mut i: usize = 0;
    while i < args.len()
        invariant
            i <= args@.len(),
            forall|k: int| 0 <= k < i ==> args.deep_view()[k] != a@ && args.deep_view()[k] != b@,
        decreases args@.len() - i,
    {
        if str_eq(args[i].as_str(), a) || str_eq(args[i].as_str(), b) {
            assert(args.deep_view()[i as int] == args@[i as int]@);
            return true;
        }
        assert(args.deep_view()[i as int] == args@[i as int]@);
        i = i + 1;
    }
    assert(!args.deep_view().contains(a@));
    assert(!args.deep_view().contains(b@));
    false
}

/// The address argument of the effective arguments `args`.
fn find_url(args: &Vec<String>) -> (r: UrlArgument)
    ensures
        r@ == (if url_flag_index(args.deep_view()) < 0 {
            UrlModel::NotGiven
        } else if url_flag_index(args.deep_view()) + 1 < args@.len() {
            UrlModel::Given(args.deep_view()[url_flag_index(args.deep_view()) + 1])
        } else {
            UrlModel::Missing
        }),
{
    proof {
        reveal_strlit("--url");
        reveal_strlit("-u");
    }
    let ghost d = args.deep_view();
    let mut i: usize = 0;
    assert(d.take(0) =~= Seq::<Seq<char>>::empty());
    while i < args.len()
        invariant
            d == args.deep_view(),
            i <= args@.len(),
            url_flag_index(d.take(i as int)) == -1,
        decreases args@.len() - i,
    {
        assert(d.take(i + 1).drop_last() =~= d.take(i as int));
        assert(d[i as int] == args@[i as int]@);
        if str_eq(args[i].as_str(), "--url") || str_eq(args[i].as_str(), "-u") {
            proof {
                lemma_url_index_prefix(d, i + 1);
            }
            if i + 1 < args.len() {
                let u = args[i + 1].clone();
                assert(d[i + 1] == args@[i + 1]@);
                return UrlArgument::Given(u);
            }
            return UrlArgument::Missing;
        }
        i = i + 1;
    }
    assert(d.take(i as int) =~= d);
    UrlArgument::NotGiven
}

proof fn lemma_url_index_prefix(d: Seq<Seq<char>>, n: int)
    requires
        0 < n <= d.len(),
        url_flag_index(d.take(n)) == n - 1,
    ensures
        url_flag_index(d) == n - 1,
    decreases d.len(),
{
    if d.len() > n {
        assert(d.drop_last().take(n) =~= d.take(n));
        lemma_url_index_prefix(d.drop_last(), n);
    } else {
        assert(d.take(n) =~= d);
    }
}

/// Reads the command line `args` (the program's name first).
pub fn parse_command_line(args: &Vec<String>) -> (r: CommandLine)
    ensures
        r.mode == mode_of(args.deep_view()),
        r.cli_requested == has_either(effective_args(args.deep_view()), "--cli"@, "-c"@),
        r.debug == has_either(effective_args(args.deep_view()), "--debug"@, "-d"@),
        r.override_existing == override_requested(args.deep_view()),
        r.help == has_either(effective_args(args.deep_view()), "--help"@, "-h"@),
        r.url@ == url_of(args.deep_view()),
{
    let mut a: Vec<String> = args.clone();
    assert(a.deep_view() =~= args.deep_view());
    if a.len() <= 1 {
        proof {
            reveal_strlit("");
        }
        let ghost before = a.deep_view();
        let g = String::from_str("--gui");
        a.push(g);
        assert(a.deep_view() =~= before.push("--gui"@));
        let e = String::new();
        assert(e@ =~= ""@);
        let ghost mid = a.deep_view();
        a.push(e);
        assert(a.deep_view() =~= mid.push(""@));
        assert(a.deep_view() =~= before + seq!["--gui"@, ""@]);
    }
    assert(a.deep_view() == effective_args(args.deep_view()));
    let cli_requested = any_arg_is(&a, "--cli", "-c");
    let mode = if cli_requested {
        Mode::Cli
    } else if any_arg_is(&a, "--gui", "-g") {
        Mode::Gui
    } else {
        Mode::Cli
    };
    let debug = any_arg_is(&a, "--debug", "-d");
    let override_existing = any_arg_is(&a, "--overrride", "-o") || any_arg_is(
        &a,
        "--ovveride",
        "--ovveride",
    );
    let help = any_arg_is(&a, "--help", "-h");
    let url = find_url(&a);
    CommandLine { mode, cli_requested, debug, override_existing, help, url }
}

/// The characters that `str::trim` removes: Unicode white space.
pub open spec fn is_white_space(c: char) -> bool {
    ('\t' <= c && c <= '\r') || c == ' ' || c == '\u{85}' || c == '\u{a0}' || c == '\u{1680}' || (
    '\u{2000}' <= c && c <= '\u{200a}') || c == '\u{2028}' || c == '\u{2029}' || c == '\u{202f}'
        || c == '\u{205f}' || c == '\u{3000}'
}

/// Whether `c` is white space.
pub fn white_space(c: char) -> (r: bool)
    ensures
        r == is_white_space(c),
{
    ('\t' <= c && c <= '\r') || c == ' ' || c == '\u{85}' || c == '\u{a0}' || c == '\u{1680}' || (
    '\u{2000}' <= c && c <= '\u{200a}') || c == '\u{2028}' || c == '\u{2029}' || c == '\u{202f}'
        || c == '\u{205f}' || c == '\u{3000}'
}

/// The first character of `s` that is not white space: the first character
/// of the trimmed answer.
pub open spec fn first_non_space(s: Seq<char>) -> Option<char>
    decreases s.len(),
{
    if s.len() == 0 {
        None
    } else if is_white_space(s[0]) {
        first_non_space(s.skip(1))
    } else {
        Some(s[0])
    }
}

/// The answer typed on the line `line`: its first character once white
/// space is trimmed, or `None` for a blank line.
pub fn answer_char(line: &str) -> (r: Option<char>)
    ensures
        r == first_non_space(line@),
{
    let v = crate::text::chars_of(line);
    let mut i: usize = 0;
    assert(line@.skip(0) =~= line@);
    while i < v.len()
        invariant
            v@ == line@,
            i <= v@.len(),
            first_non_space(line@) == first_non_space(line@.skip(i as int)),
        decreases v@.len() - i,
    {
        assert(line@.skip(i as int).skip(1) =~= line@.skip(i + 1));
        if !white_space(v[i]) {
            return Some(v[i]);
        }
        i = i + 1;
    }
    None
}

/// What to do with the answer to "convert the images to PDF?".
#[derive(Clone, Copy, Debug, PartialEq, Eq, Structural)]
pub enum ConvertChoice {
    Convert,
    Skip,
    Invalid,
}

/// `y` converts, `n` does not, anything else is a wrong answer.
pub fn conversion_choice(answer: char) -> (r: ConvertChoice)
    ensures
        r == (if answer == 'y' {
            ConvertChoice::Convert
        } else if answer == 'n' {
            ConvertChoice::Skip
        } else {
            ConvertChoice::Invalid
        }),
{
    if answer == 'y' {
        ConvertChoice::Convert
    } else if answer == 'n' {
        ConvertChoice::Skip
    } else {
        ConvertChoice::Invalid
    }
}

/// With no argument beyond its own name the program opens its window
/// (unless its own name is itself the terminal switch).
pub proof fn law_no_arguments_opens_window(args: Seq<Seq<char>>)
    requires
        args.len() <= 1,
        !has_either(args, "--cli"@, "-c"@),
    ensures
        mode_of(args) == Mode::Gui,
{
    reveal_strlit("--cli");
    reveal_strlit("-c");
    reveal_strlit("--gui");
    reveal_strlit("");
    let a = effective_args(args);
    assert(a[args.len() as int] == "--gui"@);
    assert(a.contains("--gui"@));
    if a.contains("--cli"@) {
        let i = choose|i: int| 0 <= i < a.len() && a[i] == "--cli"@;
        if i == args.len() {
            assert(a[i][2] == 'g');
            assert(("--cli"@)[2] == 'c');
        } else if i > args.len() {
            assert(a[i] == ""@);
        } else {
            assert(args.contains("--cli"@));
        }
    }
    if a.contains("-c"@) {
        let i = choose|i: int| 0 <= i < a.len() && a[i] == "-c"@;
        if i == args.len() {
            assert(a[i].len() == 5);
        } else if i > args.len() {
            assert(a[i] == ""@);
        } else {
            assert(args.contains("-c"@));
        }
    }
}

/// `--cli` or `-c` anywhere keeps the program on the terminal, whatever else
/// is given.
pub proof fn law_cli_switch_wins(args: Seq<Seq<char>>)
    requires
        has_either(args, "--cli"@, "-c"@),
    ensures
        mode_of(args) == Mode::Cli,
{
    let a = effective_args(args);
    if args.contains("--cli"@) {
        let i = choose|i: int| 0 <= i < args.len() && args[i] == "--cli"@;
        assert(a[i] == "--cli"@);
    } else {
        let i = choose|i: int| 0 <= i < args.len() && args[i] == "-c"@;
        assert(a[i] == "-c"@);
    }
}

} // verus!
