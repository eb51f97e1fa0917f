//! The command-line grammar: GNU-style short and long options, lexed and
//! applied to a configuration, with help, version and query requests served
//! before the statistics flags are checked.
use vstd::prelude::*;
use crate::conf::CmdOptConf;
use crate::conf::ConfV;
use crate::conf::conf_default;
use crate::conf::confv_wf;
use crate::conf::seq_has;
use crate::conf::errs::OptParseError;
use crate::conf::errs::OptParseErrors;
use crate::conf::errs::PErrV;
use crate::text::char_to_string;
use crate::text::chars_sub;
use crate::text::chars_to_string;
use crate::text::join_sep;
use crate::text::join_strings;
use crate::text::str_chars;
use crate::text::str_eq;
use crate::util::OptLocaleLoc;
use crate::util::opt_locale_loc::is_locale_name;
use crate::util::opt_locale_loc::locale_available_names;
use crate::util::opt_locale_loc::locale_err_text;

verus! {

// ------------------------------------------------------------------
// The fixed texts.
/// The version line.
pub open spec fn version_text() -> Seq<char> {
    "aki-stats 0.1.12"@
}

/// The usage line for a program name.
pub open spec fn usage_text(prog: Seq<char>) -> Seq<char> {
    "Usage:\n  "@ + prog + " [options]"@
}

/// Everything of the help text after the version line.
pub open spec fn help_body_text() -> Seq<char> {
    "\n\nUsage:\n  aki-stats [options]\n\noutput the statistics of text, like a wc of linux command.\n\nOptions:\n  -a, --all                 output the all statistics of text, exclude ascii map\n  -b, --bytes               output the byte counts\n  -c, --chars               output the unicode character counts\n  -l, --lines               output the line counts\n      --map-ascii           output the ascii map statistics\n  -m, --max-line-bytes      output the maximum byte counts of line\n  -w, --words               output the word counts\n      --locale <loc>        locale of number format: en, fr, ... posix\n  -?, --query <q>           display available names of locale and exit\n\n  -H, --help        display this help and exit\n  -V, --version     display version information and exit\n  -X <x-options>    x options. try -X help\n\nExamples:\n  Outputs the line count:\n    echo -e \"acbde fghi\\njkln opqr\" | aki-stats -l\n  Outputs the byte count:\n    echo -e \"acbde fghi\\njkln opqr\" | aki-stats -b\n  Outputs the word count:\n    echo -e \"acbde fghi\\njkln opqr\" | aki-stats -w\n"@
}

/// The whole help text.
pub open spec fn help_text() -> Seq<char> {
    version_text() + help_body_text()
}

/// The help text of the extra `-X` parameters.
pub open spec fn x_help_text() -> Seq<char> {
    "Options:\n  -X rust-version-info     display package version info and exit\n  -X base_dir=<path>       set <path> is base directory\n"@
}

/// The answer to an unknown query.
pub open spec fn query_error_text(q: Seq<char>) -> Seq<char> {
    "unknown query: "@ + q + "\navailable query: locale"@
}

/// The hint named after a run without any selected statistic.
pub open spec fn missing_opt_text() -> Seq<char> {
    "b, c, l, w, a or --map-ascii"@
}

/// The version line, for any program name.
pub fn version_message(_program: &str) -> (r: String)
    ensures
        r@ == version_text(),
{
    String::from_str("aki-stats 0.1.12")
}

/// The usage line of the given program name.
pub fn usage_message(program: &str) -> (r: String)
    ensures
        r@ == usage_text(program@),
{
    let mut s = String::from_str("Usage:\n  ");
    s.append(program);
    s.append(" [options]");
    s
}

/// The whole help text.
pub fn help_message(_program: &str) -> (r: String)
    ensures
        r@ == help_text(),
{
    let mut s = version_message(_program);
    s.append(
        "\n\nUsage:\n  aki-stats [options]\n\noutput the statistics of text, like a wc of linux command.\n\nOptions:\n  -a, --all                 output the all statistics of text, exclude ascii map\n  -b, --bytes               output the byte counts\n  -c, --chars               output the unicode character counts\n  -l, --lines               output the line counts\n      --map-ascii           output the ascii map statistics\n  -m, --max-line-bytes      output the maximum byte counts of line\n  -w, --words               output the word counts\n      --locale <loc>        locale of number format: en, fr, ... posix\n  -?, --query <q>           display available names of locale and exit\n\n  -H, --help        display this help and exit\n  -V, --version     display version information and exit\n  -X <x-options>    x options. try -X help\n\nExamples:\n  Outputs the line count:\n    echo -e \"acbde fghi\\njkln opqr\" | aki-stats -l\n  Outputs the byte count:\n    echo -e \"acbde fghi\\njkln opqr\" | aki-stats -b\n  Outputs the word count:\n    echo -e \"acbde fghi\\njkln opqr\" | aki-stats -w\n",
    );
    s
}

/// The help text of the extra `-X` parameters.
pub fn opt_uc_x_help_message(_program: &str) -> (r: String)
    ensures
        r@ == x_help_text(),
{
    String::from_str(
        "Options:\n  -X rust-version-info     display package version info and exit\n  -X base_dir=<path>       set <path> is base directory\n",
    )
}

/// The list of supported locale names, from the given name table.
pub fn query_locale(_program: &str, names: &Vec<String>) -> (r: String)
    ensures
        r@ == "locales: C "@ + join_sep(names.deep_view(), " "@),
{
    let mut s = String::from_str("locales: C ");
    let j = join_strings(names, " ");
    s.append(j.as_str());
    s
}

/// The answer to an unknown query.
pub fn query_error(_program: &str, s: &str) -> (r: String)
    ensures
        r@ == query_error_text(s@),
{
    let mut t = String::from_str("unknown query: ");
    t.append(s);
    t.append("\navailable query: locale");
    t
}

// ------------------------------------------------------------------
// The option table.
/// The options the grammar knows.
#[derive(Clone, Copy, PartialEq, Eq, Structural)]
pub enum OptId {
    All,
    Bytes,
    Chars,
    Lines,
    MapAscii,
    MaxLineBytes,
    Words,
    Locale,
    Query,
    Help,
    Version,
    UcX,
}

/// Whether an option carries an argument.
#[derive(Clone, Copy, PartialEq, Eq, Structural)]
pub enum ArgReq {
    No,
    Yes,
}

/// The option behind a short name, if any.
pub open spec fn short_opt_id(c: char) -> Option<OptId> {
    if c == 'a' {
        Option::Some(OptId::All)
    } else if c == 'b' {
        Option::Some(OptId::Bytes)
    } else if c == 'c' {
        Option::Some(OptId::Chars)
    } else if c == 'l' {
        Option::Some(OptId::Lines)
    } else if c == 'm' {
        Option::Some(OptId::MaxLineBytes)
    } else if c == 'w' {
        Option::Some(OptId::Words)
    } else if c == '?' {
        Option::Some(OptId::Query)
    } else if c == 'H' {
        Option::Some(OptId::Help)
    } else if c == 'V' {
        Option::Some(OptId::Version)
    } else if c == 'X' {
        Option::Some(OptId::UcX)
    } else {
        Option::None
    }
}

/// The option behind a long name, if any.  The empty name finds the one
/// entry of the table without a long name, as a search by name does.
pub open spec fn long_opt_id(name: Seq<char>) -> Option<OptId> {
    if name == "all"@ {
        Option::Some(OptId::All)
    } else if name == "bytes"@ {
        Option::Some(OptId::Bytes)
    } else if name == "chars"@ {
        Option::Some(OptId::Chars)
    } else if name == "lines"@ {
        Option::Some(OptId::Lines)
    } else if name == "map-ascii"@ {
        Option::Some(OptId::MapAscii)
    } else if name == "max-line-bytes"@ {
        Option::Some(OptId::MaxLineBytes)
    } else if name == "words"@ {
        Option::Some(OptId::Words)
    } else if name == "locale"@ {
        Option::Some(OptId::Locale)
    } else if name == "query"@ {
        Option::Some(OptId::Query)
    } else if name == "help"@ {
        Option::Some(OptId::Help)
    } else if name == "version"@ {
        Option::Some(OptId::Version)
    } else if name.len() == 0 {
        Option::Some(OptId::UcX)
    } else {
        Option::None
    }
}

/// Whether an option carries an argument.
pub open spec fn opt_arg_req(id: OptId) -> ArgReq {
    match id {
        OptId::Locale => ArgReq::Yes,
        OptId::UcX => ArgReq::Yes,
        OptId::Query => ArgReq::Yes,
        _ => ArgReq::No,
    }
}

// ------------------------------------------------------------------
// The lexer's model.
/// The image of one recognized option with its argument.
#[verifier::ext_equal]
pub ghost struct NameValV {
    pub id: OptId,
    pub val: Option<Seq<char>>,
}

/// The image of a lexed command line: recognized options, free arguments,
/// and lexing errors.
#[verifier::ext_equal]
pub ghost struct LexOutV {
    pub nvs: Seq<NameValV>,
    pub free: Seq<Seq<char>>,
    pub errs: Seq<PErrV>,
}

/// The image of one lexed long-option token.
#[verifier::ext_equal]
pub ghost struct LongOutV {
    pub nv: Option<NameValV>,
    pub err: Option<PErrV>,
    pub used: bool,
}

/// The image of one lexed short-option token.
#[verifier::ext_equal]
pub ghost struct ShortsOutV {
    pub nvs: Seq<NameValV>,
    pub errs: Seq<PErrV>,
    pub used: bool,
}

/// Index of the first `'='` in a token tail, or its length if there is
/// none.
pub open spec fn find_eq(s: Seq<char>) -> int
    decreases s.len(),
{
    if s.len() == 0 {
        0
    } else if s[0] == '=' {
        0
    } else {
        1 + find_eq(s.drop_first())
    }
}

/// `find_eq` stays within bounds, finds an `'='`, and nothing before it is
/// one.
pub proof fn lemma_find_eq_bounds(s: Seq<char>)
    ensures
        0 <= find_eq(s) <= s.len(),
        find_eq(s) < s.len() ==> s[find_eq(s)] == '=',
        forall|j: int| 0 <= j < find_eq(s) ==> s[j] != '=',
    decreases s.len(),
{
    if s.len() == 0 {
    } else if s[0] == '=' {
    } else {
        lemma_find_eq_bounds(s.drop_first());
        assert forall|j: int| 0 <= j < find_eq(s) implies s[j] != '=' by {
            if j > 0 {
                assert(s.drop_first()[j - 1] == s[j]);
            }
        }
    }
}

/// `find_eq` is the one index whose prefix is clean and which holds `'='`
/// (or the length, when the whole token is clean).
pub proof fn lemma_find_eq_at(s: Seq<char>, i: int)
    requires
        0 <= i < s.len(),
        s[i] == '=',
        forall|j: int| 0 <= j < i ==> s[j] != '=',
    ensures
        find_eq(s) == i,
    decreases s.len(),
{
    if i == 0 {
    } else {
        assert(s[0] != '=');
        assert forall|j: int| 0 <= j < i - 1 implies s.drop_first()[j] != '=' by {
            assert(s.drop_first()[j] == s[j + 1]);
        }
        assert(s.drop_first()[i - 1] == s[i]);
        lemma_find_eq_at(s.drop_first(), i - 1);
    }
}

/// In a token without `'='`, `find_eq` runs to the end.
pub proof fn lemma_find_eq_none(s: Seq<char>)
    requires
        forall|j: int| 0 <= j < s.len() ==> s[j] != '=',
    ensures
        find_eq(s) == s.len(),
    decreases s.len(),
{
    if s.len() > 0 {
        assert forall|j: int| 0 <= j < s.drop_first().len() implies s.drop_first()[j] != '=' by {
            assert(s.drop_first()[j] == s[j + 1]);
        }
        lemma_find_eq_none(s.drop_first());
    }
}

/// The view behind an optional borrowed argument.
pub open spec fn opt_str_view(o: Option<&String>) -> Option<Seq<char>> {
    match o {
        Option::None => Option::None,
        Option::Some(s) => Option::Some(s@),
    }
}

/// Lexes one long-option token (the part after `"--"`), with the following
/// argument at hand for an option that wants one.
pub open spec fn lex_long(tail: Seq<char>, next: Option<Seq<char>>) -> LongOutV {
    let e = find_eq(tail);
    let name = tail.take(e);
    let val = if e < tail.len() {
        Option::Some(tail.skip(e + 1))
    } else {
        Option::<Seq<char>>::None
    };
    match long_opt_id(name) {
        Option::None => LongOutV {
            nv: Option::None,
            err: Option::Some(PErrV::InvalidOption(name)),
            used: false,
        },
        Option::Some(id) => match opt_arg_req(id) {
            ArgReq::No => match val {
                Option::Some(v) => LongOutV {
                    nv: Option::None,
                    err: Option::Some(PErrV::UnexpectedOptionArgument(name, v)),
                    used: false,
                },
                Option::None => LongOutV {
                    nv: Option::Some(NameValV { id, val: Option::None }),
                    err: Option::None,
                    used: false,
                },
            },
            ArgReq::Yes => match val {
                Option::Some(v) => LongOutV {
                    nv: Option::Some(NameValV { id, val: Option::Some(v) }),
                    err: Option::None,
                    used: false,
                },
                Option::None => match next {
                    Option::Some(nx) => LongOutV {
                        nv: Option::Some(NameValV { id, val: Option::Some(nx) }),
                        err: Option::None,
                        used: true,
                    },
                    Option::None => LongOutV {
                        nv: Option::None,
                        err: Option::Some(PErrV::MissingOptionArgument(name)),
                        used: false,
                    },
                },
            },
        },
    }
}

/// Lexes one short-option token (the part after `"-"`), character by
/// character.  A character that wants an argument takes the rest of the
/// token, or else the following argument.
pub open spec fn lex_shorts(tail: Seq<char>, next: Option<Seq<char>>) -> ShortsOutV
    decreases tail.len(),
{
    if tail.len() == 0 {
        ShortsOutV { nvs: Seq::empty(), errs: Seq::empty(), used: false }
    } else {
        let c = tail[0];
        match short_opt_id(c) {
            Option::None => {
                let rest = lex_shorts(tail.drop_first(), next);
                ShortsOutV {
                    nvs: rest.nvs,
                    errs: seq![PErrV::InvalidOption(seq![c])] + rest.errs,
                    used: rest.used,
                }
            },
            Option::Some(id) => {
                if opt_arg_req(id) is No {
                    let rest = lex_shorts(tail.drop_first(), next);
                    ShortsOutV {
                        nvs: seq![NameValV { id, val: Option::None }] + rest.nvs,
                        errs: rest.errs,
                        used: rest.used,
                    }
                } else if tail.len() > 1 {
                    ShortsOutV {
                        nvs: seq![NameValV { id, val: Option::Some(tail.skip(1)) }],
                        errs: Seq::empty(),
                        used: false,
                    }
                } else {
                    match next {
                        Option::Some(nx) => ShortsOutV {
                            nvs: seq![NameValV { id, val: Option::Some(nx) }],
                            errs: Seq::empty(),
                            used: true,
                        },
                        Option::None => {
                            let rest = lex_shorts(tail.drop_first(), next);
                            ShortsOutV {
                                nvs: rest.nvs,
                                errs: seq![PErrV::MissingOptionArgument(seq![c])] + rest.errs,
                                used: rest.used,
                            }
                        },
                    }
                }
            },
        }
    }
}

/// A short-option token takes the following argument only when there is
/// one.
pub proof fn lemma_shorts_used(tail: Seq<char>, next: Option<Seq<char>>)
    ensures
        lex_shorts(tail, next).used ==> next is Some,
    decreases tail.len(),
{
    if tail.len() > 0 {
        lemma_shorts_used(tail.drop_first(), next);
    }
}

/// Lexes a whole command line.  A `"--"` argument ends option recognition;
/// everything after it is free.  Other arguments not beginning with `'-'`
/// are free, and recognition goes on after them.
pub open spec fn lex_args(args: Seq<Seq<char>>) -> LexOutV
    decreases args.len(),
{
    if args.len() == 0 {
        LexOutV { nvs: Seq::empty(), free: Seq::empty(), errs: Seq::empty() }
    } else {
        let a = args[0];
        let rest = args.skip(1);
        if a == seq!['-', '-'] {
            LexOutV { nvs: Seq::empty(), free: rest, errs: Seq::empty() }
        } else if a.len() == 0 || a[0] != '-' {
            let lr = lex_args(rest);
            LexOutV { nvs: lr.nvs, free: seq![a] + lr.free, errs: lr.errs }
        } else if a.len() >= 2 && a[1] == '-' {
            let lo = lex_long(
                a.skip(2),
                if rest.len() > 0 {
                    Option::Some(rest[0])
                } else {
                    Option::None
                },
            );
            let rest2 = if lo.used && rest.len() > 0 {
                rest.skip(1)
            } else {
                rest
            };
            let lr = lex_args(rest2);
            LexOutV {
                nvs: (match lo.nv {
                    Option::Some(nv) => seq![nv],
                    Option::None => Seq::empty(),
                }) + lr.nvs,
                free: lr.free,
                errs: (match lo.err {
                    Option::Some(e) => seq![e],
                    Option::None => Seq::empty(),
                }) + lr.errs,
            }
        } else {
            let so = lex_shorts(
                a.skip(1),
                if rest.len() > 0 {
                    Option::Some(rest[0])
                } else {
                    Option::None
                },
            );
            let rest2 = if so.used && rest.len() > 0 {
                rest.skip(1)
            } else {
                rest
            };
            let lr = lex_args(rest2);
            LexOutV { nvs: so.nvs + lr.nvs, free: lr.free, errs: so.errs + lr.errs }
        }
    }
}

// ------------------------------------------------------------------
// Applying recognized options to the configuration.
/// The locale table's diagnostic for a rejected name, quoted as the
/// configuration reports it.
pub open spec fn locale_quoted_err(v: Seq<char>) -> Seq<char> {
    seq!['\''] + v + seq!['\'', ':', ' '] + locale_err_text(v)
}

/// One recognized option applied to the configuration.
pub open spec fn apply_one(c: ConfV, nv: NameValV) -> (ConfV, Option<PErrV>) {
    match nv.id {
        OptId::All => (ConfV { all: true, ..c }, Option::None),
        OptId::Bytes => (ConfV { bytes: true, ..c }, Option::None),
        OptId::Chars => (ConfV { chars: true, ..c }, Option::None),
        OptId::Lines => (ConfV { lines: true, ..c }, Option::None),
        OptId::MapAscii => (ConfV { map_ascii: true, ..c }, Option::None),
        OptId::MaxLineBytes => (ConfV { max: true, ..c }, Option::None),
        OptId::Words => (ConfV { words: true, ..c }, Option::None),
        OptId::Help => (ConfV { help: true, ..c }, Option::None),
        OptId::Version => (ConfV { version: true, ..c }, Option::None),
        OptId::Query => match nv.val {
            Option::Some(v) => (ConfV { query: Option::Some(v), ..c }, Option::None),
            Option::None => (c, Option::None),
        },
        OptId::UcX => match nv.val {
            Option::Some(v) => (ConfV { x_params: c.x_params.push(v), ..c }, Option::None),
            Option::None => (c, Option::None),
        },
        OptId::Locale => match nv.val {
            Option::Some(v) => {
                if v == "C"@ {
                    (ConfV { locale: Option::None, ..c }, Option::None)
                } else if is_locale_name(v) {
                    (ConfV { locale: Option::Some(v), ..c }, Option::None)
                } else {
                    (
                        c,
                        Option::Some(
                            PErrV::InvalidOptionArgument("locale"@, locale_quoted_err(v)),
                        ),
                    )
                }
            },
            Option::None => (c, Option::None),
        },
    }
}

/// All recognized options applied in order.  Once help or the version is
/// requested, the rest is left unread.
pub open spec fn apply_nvs(c: ConfV, nvs: Seq<NameValV>) -> (ConfV, Seq<PErrV>)
    decreases nvs.len(),
{
    if nvs.len() == 0 {
        (c, Seq::empty())
    } else {
        let (c1, e) = apply_one(c, nvs[0]);
        let errs0 = match e {
            Option::Some(pe) => seq![pe],
            Option::None => Seq::<PErrV>::empty(),
        };
        if c1.help || c1.version {
            (c1, errs0)
        } else {
            let (c2, es) = apply_nvs(c1, nvs.drop_first());
            (c2, errs0 + es)
        }
    }
}

// ------------------------------------------------------------------
// The whole parse.
/// The outcome of a parse: a configuration, a list of errors, or the one
/// answer whose text only the locale table at run time can give.
#[verifier::ext_equal]
pub ghost enum ParseOutV {
    Conf(ConfV),
    Errs(Seq<PErrV>),
    QueryLocale,
}

/// A configuration with the all-statistics toggle expanded into the five
/// counting toggles.
pub open spec fn expand_all(c: ConfV) -> ConfV {
    if c.all {
        ConfV { bytes: true, chars: true, lines: true, words: true, max: true, ..c }
    } else {
        c
    }
}

/// Whether a configuration selects no statistic at all.
pub open spec fn nothing_selected(c: ConfV) -> bool {
    !c.all && !c.bytes && !c.chars && !c.lines && !c.words && !c.map_ascii
}

/// The image of a whole command-line parse.
pub open spec fn parse_spec(prog: Seq<char>, args: Seq<Seq<char>>) -> ParseOutV {
    let lx = lex_args(args);
    let c0 = conf_default(prog);
    if lx.errs.len() > 0 {
        ParseOutV::Errs(lx.errs + seq![PErrV::MissingOption(missing_opt_text())])
    } else {
        let (c, aerrs) = apply_nvs(c0, lx.nvs);
        if c.help {
            ParseOutV::Errs(seq![PErrV::HelpMsg(help_text())])
        } else if c.version {
            ParseOutV::Errs(seq![PErrV::VersionMsg(version_text())])
        } else if c.x_params.len() > 0 && seq_has(c.x_params, "help"@) {
            ParseOutV::Errs(seq![PErrV::HelpMsg(x_help_text())])
        } else if c.x_params.len() > 0 && seq_has(c.x_params, "rust-version-info"@) {
            ParseOutV::Errs(seq![PErrV::XPackageVersionInfo])
        } else {
            match c.query {
                Option::Some(q) => {
                    if q == "locale"@ {
                        ParseOutV::QueryLocale
                    } else {
                        ParseOutV::Errs(seq![PErrV::VersionMsg(query_error_text(q))])
                    }
                },
                Option::None => {
                    let errs2 = aerrs + (if nothing_selected(c) {
                        seq![PErrV::MissingOption(missing_opt_text())]
                    } else {
                        Seq::<PErrV>::empty()
                    }) + (if lx.free.len() > 0 {
                        seq![PErrV::UnexpectedArgument(lx.free[0])]
                    } else {
                        Seq::<PErrV>::empty()
                    });
                    if errs2.len() > 0 {
                        ParseOutV::Errs(errs2)
                    } else {
                        ParseOutV::Conf(expand_all(c))
                    }
                },
            }
        }
    }
}

// ------------------------------------------------------------------
// The lexer.
/// One recognized option with its argument.
pub struct NameVal {
    pub id: OptId,
    pub val: Option<String>,
}

impl View for NameVal {
    type V = NameValV;

    open spec fn view(&self) -> NameValV {
        NameValV {
            id: self.id,
            val: match self.val {
                Option::None => Option::None,
                Option::Some(ref s) => Option::Some(s@),
            },
        }
    }
}

impl DeepView for NameVal {
    type V = NameValV;

    open spec fn deep_view(&self) -> NameValV {
        self@
    }
}

/// Finds the position of the first `'='` in a token tail.
fn find_eq_pos(tail: &Vec<char>) -> (r: usize)
    ensures
        r as int == find_eq(tail@),
        r <= tail@.len(),
{
    let mut i: usize = 0;
    while i < tail.len()
        invariant
            0 <= i <= tail@.len(),
            forall|j: int| 0 <= j < i ==> tail@[j] != '=',
        decreases tail@.len() - i,
    {
        if tail[i] == '=' {
            proof {
                lemma_find_eq_at(tail@, i as int);
            }
            return i;
        }
        i = i + 1;
    }
    proof {
        lemma_find_eq_none(tail@);
    }
    i
}

/// Looks a long name up in the option table.
fn long_opt_lookup(name: &String) -> (r: Option<OptId>)
    ensures
        r == long_opt_id(name@),
{
    if str_eq(name.as_str(), "all") {
        Option::Some(OptId::All)
    } else if str_eq(name.as_str(), "bytes") {
        Option::Some(OptId::Bytes)
    } else if str_eq(name.as_str(), "chars") {
        Option::Some(OptId::Chars)
    } else if str_eq(name.as_str(), "lines") {
        Option::Some(OptId::Lines)
    } else if str_eq(name.as_str(), "map-ascii") {
        Option::Some(OptId::MapAscii)
    } else if str_eq(name.as_str(), "max-line-bytes") {
        Option::Some(OptId::MaxLineBytes)
    } else if str_eq(name.as_str(), "words") {
        Option::Some(OptId::Words)
    } else if str_eq(name.as_str(), "locale") {
        Option::Some(OptId::Locale)
    } else if str_eq(name.as_str(), "query") {
        Option::Some(OptId::Query)
    } else if str_eq(name.as_str(), "help") {
        Option::Some(OptId::Help)
    } else if str_eq(name.as_str(), "version") {
        Option::Some(OptId::Version)
    } else if name.as_str().is_empty() {
        Option::Some(OptId::UcX)
    } else {
        Option::None
    }
}

/// Looks a short name up in the option table.
fn short_opt_lookup(c: char) -> (r: Option<OptId>)
    ensures
        r == short_opt_id(c),
{
    if c == 'a' {
        Option::Some(OptId::All)
    } else if c == 'b' {
        Option::Some(OptId::Bytes)
    } else if c == 'c' {
        Option::Some(OptId::Chars)
    } else if c == 'l' {
        Option::Some(OptId::Lines)
    } else if c == 'm' {
        Option::Some(OptId::MaxLineBytes)
    } else if c == 'w' {
        Option::Some(OptId::Words)
    } else if c == '?' {
        Option::Some(OptId::Query)
    } else if c == 'H' {
        Option::Some(OptId::Help)
    } else if c == 'V' {
        Option::Some(OptId::Version)
    } else if c == 'X' {
        Option::Some(OptId::UcX)
    } else {
        Option::None
    }
}

/// Whether an option carries an argument.
fn arg_req_of(id: OptId) -> (r: ArgReq)
    ensures
        r == opt_arg_req(id),
{
    match id {
        OptId::Locale => ArgReq::Yes,
        OptId::UcX => ArgReq::Yes,
        OptId::Query => ArgReq::Yes,
        _ => ArgReq::No,
    }
}

/// Lexes one long-option token (the part after `"--"`).
fn lex_long_token(tail: &Vec<char>, next: Option<&String>) -> (r: (
    Option<NameVal>,
    Option<OptParseError>,
    bool,
))
    ensures
        ({
            let lo = lex_long(tail@, opt_str_view(next));
            &&& (match r.0 {
                Option::Some(nv) => lo.nv matches Some(x) && nv@ == x,
                Option::None => lo.nv is None,
            })
            &&& (match r.1 {
                Option::Some(e) => lo.err matches Some(x) && e@ == x,
                Option::None => lo.err is None,
            })
            &&& r.2 == lo.used
        }),
{
    let ghost lo = lex_long(tail@, opt_str_view(next));
    let e = find_eq_pos(tail);
    let name = chars_to_string(tail, 0, e);
    proof {
        assert(name@ =~= tail@.take(e as int));
    }
    let val: Option<String> = if e < tail.len() {
        let v = chars_to_string(tail, e + 1, tail.len());
        proof {
            assert(v@ =~= tail@.skip(e as int + 1));
        }
        Option::Some(v)
    } else {
        Option::None
    };
    match long_opt_lookup(&name) {
        Option::None => {
            (Option::None, Option::Some(OptParseError::InvalidOption(name)), false)
        },
        Option::Some(id) => {
            let req = arg_req_of(id);
            if req == ArgReq::No {
                match val {
                    Option::Some(v) => (
                        Option::None,
                        Option::Some(OptParseError::UnexpectedOptionArgument(name, v)),
                        false,
                    ),
                    Option::None => (
                        Option::Some(NameVal { id, val: Option::None }),
                        Option::None,
                        false,
                    ),
                }
            } else {
                match val {
                    Option::Some(v) => (
                        Option::Some(NameVal { id, val: Option::Some(v) }),
                        Option::None,
                        false,
                    ),
                    Option::None => match next {
                        Option::Some(nx) => (
                            Option::Some(NameVal { id, val: Option::Some(nx.clone()) }),
                            Option::None,
                            true,
                        ),
                        Option::None => (
                            Option::None,
                            Option::Some(OptParseError::MissingOptionArgument(name)),
                            false,
                        ),
                    },
                }
            }
        },
    }
}

/// Lexes the characters of one short-option token, from the given position
/// on, appending what it recognizes.  Returns whether the following
/// argument was taken as an option argument.
fn lex_short_token(
    tail: &Vec<char>,
    i: usize,
    next: Option<&String>,
    nvs: &mut Vec<NameVal>,
    errs: &mut Vec<OptParseError>,
) -> (used: bool)
    requires
        i <= tail@.len(),
    ensures
        ({
            let so = lex_shorts(tail@.skip(i as int), opt_str_view(next));
            &&& final(nvs).deep_view() =~= old(nvs).deep_view() + so.nvs
            &&& final(errs).deep_view() =~= old(errs).deep_view() + so.errs
            &&& used == so.used
        }),
    decreases tail@.len() - i,
{
    if i >= tail.len() {
        proof {
            assert(tail@.skip(i as int) =~= Seq::<char>::empty());
            assert(nvs.deep_view() =~= old(nvs).deep_view() + Seq::<NameValV>::empty());
            assert(errs.deep_view() =~= old(errs).deep_view() + Seq::<PErrV>::empty());
        }
        return false;
    }
    let c = tail[i];
    proof {
        assert(tail@.skip(i as int)[0] == tail@[i as int]);
        assert(tail@.skip(i as int).drop_first() =~= tail@.skip(i as int + 1));
    }
    match short_opt_lookup(c) {
        Option::None => {
            let ghost e0 = errs.deep_view();
            errs.push(OptParseError::InvalidOption(char_to_string(c)));
            proof {
                assert(errs.deep_view() =~~= e0.push(PErrV::InvalidOption(seq![c])));
            }
            let used = lex_short_token(tail, i + 1, next, nvs, errs);
            proof {
                let so = lex_shorts(tail@.skip(i as int), opt_str_view(next));
                assert(errs.deep_view() =~~= old(errs).deep_view() + so.errs);
                assert(nvs.deep_view() =~~= old(nvs).deep_view() + so.nvs);
            }
            used
        },
        Option::Some(id) => {
            let req = arg_req_of(id);
            if req == ArgReq::No {
                let ghost n0 = nvs.deep_view();
                nvs.push(NameVal { id, val: Option::None });
                proof {
                    assert(nvs.deep_view() =~~= n0.push(NameValV { id, val: Option::None }));
                }
                let used = lex_short_token(tail, i + 1, next, nvs, errs);
                proof {
                    let so = lex_shorts(tail@.skip(i as int), opt_str_view(next));
                    assert(nvs.deep_view() =~~= old(nvs).deep_view() + so.nvs);
                    assert(errs.deep_view() =~~= old(errs).deep_view() + so.errs);
                }
                used
            } else if i + 1 < tail.len() {
                let v = chars_to_string(tail, i + 1, tail.len());
                proof {
                    assert(v@ =~= tail@.skip(i as int).skip(1));
                }
                let ghost n0 = nvs.deep_view();
                nvs.push(NameVal { id, val: Option::Some(v) });
                proof {
                    let so = lex_shorts(tail@.skip(i as int), opt_str_view(next));
                    assert(nvs.deep_view() =~~= old(nvs).deep_view() + so.nvs);
                    assert(errs.deep_view() =~= old(errs).deep_view() + so.errs);
                }
                false
            } else {
                match next {
                    Option::Some(nx) => {
                        let ghost n0 = nvs.deep_view();
                        nvs.push(NameVal { id, val: Option::Some(nx.clone()) });
                        proof {
                            let so = lex_shorts(tail@.skip(i as int), opt_str_view(next));
                            assert(nvs.deep_view() =~~= old(nvs).deep_view() + so.nvs);
                            assert(errs.deep_view() =~= old(errs).deep_view() + so.errs);
                        }
                        true
                    },
                    Option::None => {
                        let ghost e0 = errs.deep_view();
                        errs.push(OptParseError::MissingOptionArgument(char_to_string(c)));
                        proof {
                            assert(errs.deep_view() =~~= e0.push(
                                PErrV::MissingOptionArgument(seq![c]),
                            ));
                        }
                        let used = lex_short_token(tail, i + 1, next, nvs, errs);
                        proof {
                            let so = lex_shorts(tail@.skip(i as int), opt_str_view(next));
                            assert(errs.deep_view() =~~= old(errs).deep_view() + so.errs);
                            assert(nvs.deep_view() =~~= old(nvs).deep_view() + so.nvs);
                        }
                        used
                    },
                }
            }
        },
    }
}

/// Lexes the command line from the given argument on, appending what it
/// recognizes.
fn lex_from(
    args: &Vec<String>,
    i: usize,
    nvs: &mut Vec<NameVal>,
    free: &mut Vec<String>,
    errs: &mut Vec<OptParseError>,
)
    requires
        i <= args@.len(),
    ensures
        ({
            let lr = lex_args(args.deep_view().skip(i as int));
            &&& final(nvs).deep_view() =~= old(nvs).deep_view() + lr.nvs
            &&& final(free).deep_view() =~= old(free).deep_view() + lr.free
            &&& final(errs).deep_view() =~= old(errs).deep_view() + lr.errs
        }),
    decreases args@.len() - i,
{
    let ghost adv = args.deep_view();
    if i >= args.len() {
        proof {
            assert(adv.skip(i as int) =~= Seq::<Seq<char>>::empty());
            assert(nvs.deep_view() =~= old(nvs).deep_view() + Seq::<NameValV>::empty());
            assert(free.deep_view() =~= old(free).deep_view() + Seq::<Seq<char>>::empty());
            assert(errs.deep_view() =~= old(errs).deep_view() + Seq::<PErrV>::empty());
        }
        return ;
    }
    let a = &args[i];
    let ac = str_chars(a.as_str());
    proof {
        assert(adv[i as int] == args@[i as int]@);
        assert(adv.skip(i as int)[0] == adv[i as int]);
        assert(adv.skip(i as int).skip(1) =~= adv.skip(i as int + 1));
        assert(ac@ == adv.skip(i as int)[0]);
    }
    let ghost rest = adv.skip(i as int + 1);
    proof {
        assert(forall|j: int| 0 <= j < adv.len() ==> #[trigger] adv[j] == args@[j]@);
    }
    if ac.len() == 2 && ac[0] == '-' && ac[1] == '-' {
        proof {
            assert(a@ =~= seq!['-', '-']);
        }
        let mut j: usize = i + 1;
        let ghost f0 = free.deep_view();
        while j < args.len()
            invariant
                i + 1 <= j <= args@.len(),
                adv == args.deep_view(),
                adv.len() == args@.len(),
                forall|k: int| 0 <= k < adv.len() ==> #[trigger] adv[k] == args@[k]@,
                free.deep_view() =~= f0 + adv.subrange(i as int + 1, j as int),
            decreases args@.len() - j,
        {
            let ghost f1 = free.deep_view();
            free.push(args[j].clone());
            proof {
                assert(free.deep_view() =~~= f1.push(adv[j as int]));
                assert(adv.subrange(i as int + 1, j as int + 1) =~= adv.subrange(
                    i as int + 1,
                    j as int,
                ).push(adv[j as int]));
            }
            j = j + 1;
        }
        proof {
            assert(adv.subrange(i as int + 1, adv.len() as int) =~= rest);
            assert(nvs.deep_view() =~= old(nvs).deep_view() + Seq::<NameValV>::empty());
            assert(errs.deep_view() =~= old(errs).deep_view() + Seq::<PErrV>::empty());
        }
        return ;
    }
    if ac.len() == 0 || ac[0] != '-' {
        proof {
            assert(a@ != seq!['-', '-']);
        }
        let ghost f0 = free.deep_view();
        free.push(a.clone());
        proof {
            assert(free.deep_view() =~~= f0.push(a@));
        }
        lex_from(args, i + 1, nvs, free, errs);
        proof {
            let lr = lex_args(adv.skip(i as int));
            assert(free.deep_view() =~~= old(free).deep_view() + lr.free);
            assert(nvs.deep_view() =~~= old(nvs).deep_view() + lr.nvs);
            assert(errs.deep_view() =~~= old(errs).deep_view() + lr.errs);
        }
        return ;
    }
    proof {
        assert(a@[0] == '-');
        assert(a@ != seq!['-', '-'] && a@.len() > 0 && a@[0] == '-');
    }
    let next: Option<&String> = if i + 1 < args.len() {
        Option::Some(&args[i + 1])
    } else {
        Option::None
    };
    proof {
        assert(opt_str_view(next) == (if rest.len() > 0 {
            Option::Some(rest[0])
        } else {
            Option::<Seq<char>>::None
        }));
    }
    if ac.len() >= 2 && ac[1] == '-' {
        let tail = chars_sub(&ac, 2, ac.len());
        proof {
            assert(tail@ =~= a@.skip(2));
        }
        let (nv, err, used) = lex_long_token(&tail, next);
        let ghost n0 = nvs.deep_view();
        let ghost e0 = errs.deep_view();
        let ghost lo = lex_long(a@.skip(2), opt_str_view(next));
        match nv {
            Option::Some(x) => {
                nvs.push(x);
                proof {
                    assert(nvs.deep_view() =~~= n0 + seq![lo.nv->0]);
                }
            },
            Option::None => {
                proof {
                    assert(nvs.deep_view() =~~= n0 + Seq::<NameValV>::empty());
                }
            },
        }
        match err {
            Option::Some(x) => {
                errs.push(x);
                proof {
                    assert(errs.deep_view() =~~= e0 + seq![lo.err->0]);
                }
            },
            Option::None => {
                proof {
                    assert(errs.deep_view() =~~= e0 + Seq::<PErrV>::empty());
                }
            },
        }
        let i2 = if used {
            i + 2
        } else {
            i + 1
        };
        proof {
            if used {
                assert(rest.len() > 0);
                assert(rest.skip(1) =~= adv.skip(i as int + 2));
            }
        }
        lex_from(args, i2, nvs, free, errs);
        proof {
            let lr = lex_args(
                if lo.used && rest.len() > 0 {
                    rest.skip(1)
                } else {
                    rest
                },
            );
            assert(nvs.deep_view() =~~= old(nvs).deep_view() + ((match lo.nv {
                Option::Some(nv) => seq![nv],
                Option::None => Seq::<NameValV>::empty(),
            }) + lr.nvs));
            assert(errs.deep_view() =~~= old(errs).deep_view() + ((match lo.err {
                Option::Some(e) => seq![e],
                Option::None => Seq::<PErrV>::empty(),
            }) + lr.errs));
            assert(free.deep_view() =~~= old(free).deep_view() + lr.free);
        }
        return ;
    }
    let tail = chars_sub(&ac, 1, ac.len());
    proof {
        assert(tail@ =~= a@.skip(1));
        assert(tail@.skip(0) =~= tail@);
    }
    let ghost n0 = nvs.deep_view();
    let ghost e0 = errs.deep_view();
    let used = lex_short_token(&tail, 0, next, nvs, errs);
    let ghost so = lex_shorts(a@.skip(1), opt_str_view(next));
    proof {
        lemma_shorts_used(a@.skip(1), opt_str_view(next));
    }
    let i2 = if used {
        i + 2
    } else {
        i + 1
    };
    proof {
        if used {
            assert(rest.len() > 0);
            assert(rest.skip(1) =~= adv.skip(i as int + 2));
        }
    }
    lex_from(args, i2, nvs, free, errs);
    proof {
        let lr = lex_args(
            if so.used && rest.len() > 0 {
                rest.skip(1)
            } else {
                rest
            },
        );
        assert(nvs.deep_view() =~~= old(nvs).deep_view() + (so.nvs + lr.nvs));
        assert(errs.deep_view() =~~= old(errs).deep_view() + (so.errs + lr.errs));
        assert(free.deep_view() =~~= old(free).deep_view() + lr.free);
    }
}

/// Applying options preserves the configuration's well-formedness: a locale
/// name is stored only once the locale table has accepted it.
pub proof fn lemma_apply_wf(c: ConfV, nvs: Seq<NameValV>)
    requires
        confv_wf(c),
    ensures
        confv_wf(apply_nvs(c, nvs).0),
    decreases nvs.len(),
{
    if nvs.len() > 0 {
        let (c1, e) = apply_one(c, nvs[0]);
        assert(confv_wf(c1));
        if !(c1.help || c1.version) {
            lemma_apply_wf(c1, nvs.drop_first());
        }
    }
}

/// Applies the recognized options to the configuration, from the given one
/// on, stopping once help or the version is requested.
#[verifier::rlimit(60)]
fn apply_from(conf: &mut CmdOptConf, nvs: &Vec<NameVal>, i: usize, errs: &mut Vec<OptParseError>)
    requires
        i <= nvs@.len(),
    ensures
        ({
            let pr = apply_nvs(old(conf)@, nvs.deep_view().skip(i as int));
            &&& final(conf)@ == pr.0
            &&& final(errs).deep_view() =~= old(errs).deep_view() + pr.1
        }),
    decreases nvs@.len() - i,
{
    let ghost ndv = nvs.deep_view();
    if i >= nvs.len() {
        proof {
            assert(ndv.skip(i as int) =~= Seq::<NameValV>::empty());
            assert(errs.deep_view() =~= old(errs).deep_view() + Seq::<PErrV>::empty());
        }
        return ;
    }
    proof {
        assert(ndv[i as int] == nvs@[i as int]@);
        assert(ndv.skip(i as int)[0] == ndv[i as int]);
        assert(ndv.skip(i as int).drop_first() =~= ndv.skip(i as int + 1));
    }
    let ghost c_old = conf@;
    let ghost step = apply_one(c_old, ndv[i as int]);
    let ghost e0 = errs.deep_view();
    let nv = &nvs[i];
    match nv.id {
        OptId::All => {
            conf.flg_all = true;
        },
        OptId::Bytes => {
            conf.flg_bytes = true;
        },
        OptId::Chars => {
            conf.flg_chars = true;
        },
        OptId::Lines => {
            conf.flg_lines = true;
        },
        OptId::MapAscii => {
            conf.flg_map_ascii = true;
        },
        OptId::MaxLineBytes => {
            conf.flg_max_line_bytes = true;
        },
        OptId::Words => {
            conf.flg_words = true;
        },
        OptId::Help => {
            conf.flg_help = true;
        },
        OptId::Version => {
            conf.flg_version = true;
        },
        OptId::Query => {
            match &nv.val {
                Option::Some(v) => {
                    conf.opt_query = Option::Some(v.clone());
                },
                Option::None => {},
            }
        },
        OptId::UcX => {
            match &nv.val {
                Option::Some(v) => {
                    let ghost xs = conf@.x_params;
                    conf.opt_uc_x.push(v.clone());
                    proof {
                        assert(conf@.x_params =~~= xs.push(v@));
                    }
                },
                Option::None => {},
            }
        },
        OptId::Locale => {
            match &nv.val {
                Option::Some(v) => {
                    match OptLocaleLoc::parse_loc(v.as_str()) {
                        Result::Ok(loc) => {
                            conf.opt_locale = loc;
                        },
                        Result::Err(e) => {
                            errs.push(
                                OptParseError::InvalidOptionArgument(
                                    String::from_str("locale"),
                                    e.message(),
                                ),
                            );
                            proof {
                                assert(errs.deep_view() =~~= e0.push(
                                    PErrV::InvalidOptionArgument(
                                        "locale"@,
                                        locale_quoted_err(v@),
                                    ),
                                ));
                            }
                        },
                    }
                },
                Option::None => {},
            }
        },
    }
    proof {
        assert(conf@ =~~= step.0);
    }
    if conf.is_help() || conf.is_version() {
        proof {
            let pr = apply_nvs(c_old, ndv.skip(i as int));
            assert(errs.deep_view() =~~= old(errs).deep_view() + pr.1);
        }
        return ;
    }
    apply_from(conf, nvs, i + 1, errs);
    proof {
        let pr = apply_nvs(c_old, ndv.skip(i as int));
        let rest = apply_nvs(step.0, ndv.skip(i as int + 1));
        assert(errs.deep_view() =~~= old(errs).deep_view() + pr.1);
    }
}

/// Builds an error list of one entry.
fn single_err(e: OptParseError) -> (r: OptParseErrors)
    ensures
        r@ =~= seq![e@],
{
    let mut errs = OptParseErrors::new();
    errs.push(e);
    errs
}

/// Parses the command line into a configuration, or into the errors and
/// answers that end the run before any scan: help, the version, the extra
/// `-X` requests, a query, an unknown or incomplete option, a missing
/// statistic selection, or an unexpected free argument.
pub fn parse_cmdopts(a_prog_name: &str, args: &Vec<String>) -> (r: Result<
    CmdOptConf,
    OptParseErrors,
>)
    ensures
        match parse_spec(a_prog_name@, args.deep_view()) {
            ParseOutV::Conf(cv) => r matches Ok(c) && c@ == cv && confv_wf(cv),
            ParseOutV::Errs(es) => r matches Err(e) && e@ == es,
            ParseOutV::QueryLocale => r matches Err(e) && e@.len() == 1 && (e@[0] matches
                PErrV::VersionMsg(t) && is_locale_list_text(t)),
        },
{
    let ghost adv = args.deep_view();
    let mut conf = CmdOptConf::new_with_prog(a_prog_name);
    let mut nvs: Vec<NameVal> = Vec::new();
    let mut free: Vec<String> = Vec::new();
    let mut lex_errs: Vec<OptParseError> = Vec::new();
    proof {
        assert(adv.skip(0) =~= adv);
    }
    lex_from(args, 0, &mut nvs, &mut free, &mut lex_errs);
    let ghost lx = lex_args(adv);
    proof {
        assert(nvs.deep_view() =~~= lx.nvs);
        assert(free.deep_view() =~~= lx.free);
        assert(lex_errs.deep_view() =~~= lx.errs);
    }
    if lex_errs.len() > 0 {
        let mut errs = OptParseErrors::from_vec(lex_errs);
        errs.push(OptParseError::MissingOption(String::from_str("b, c, l, w, a or --map-ascii")));
        proof {
            assert(errs@ =~~= lx.errs + seq![PErrV::MissingOption(missing_opt_text())]);
        }
        return Result::Err(errs);
    }
    let ghost pr = apply_nvs(conf_default(a_prog_name@), lx.nvs);
    let mut aerrs: Vec<OptParseError> = Vec::new();
    proof {
        assert(nvs.deep_view().skip(0) =~= nvs.deep_view());
    }
    apply_from(&mut conf, &nvs, 0, &mut aerrs);
    proof {
        lemma_apply_wf(conf_default(a_prog_name@), lx.nvs);
        assert(aerrs.deep_view() =~~= pr.1);
    }
    if conf.is_help() {
        return Result::Err(
            single_err(OptParseError::HelpMessage(help_message(conf.prog_name.as_str()))),
        );
    }
    if conf.is_version() {
        return Result::Err(
            single_err(OptParseError::VersionMessage(version_message(conf.prog_name.as_str()))),
        );
    }
    if conf.opt_uc_x.len() > 0 {
        if conf.is_opt_uc_x_help() {
            return Result::Err(
                single_err(
                    OptParseError::HelpMessage(opt_uc_x_help_message(conf.prog_name.as_str())),
                ),
            );
        }
        if conf.is_opt_uc_x_package_version_info() {
            return Result::Err(single_err(OptParseError::XPackageVersionInfo));
        }
    }
    match &conf.opt_query {
        Option::Some(q) => {
            if str_eq(q.as_str(), "locale") {
                let names = locale_available_names();
                let text = query_locale(a_prog_name, &names);
                proof {
                    let w = names.deep_view();
                    assert(forall|i: int|
                        0 <= i < w.len() ==> #[trigger] w[i] == names@[i]@);
                    assert(text@ == "locales: C "@ + join_sep(w, " "@));
                    assert(forall|i: int| 0 <= i < w.len() ==> is_locale_name(#[trigger] w[i]));
                    assert(is_locale_list_text(text@));
                }
                return Result::Err(single_err(OptParseError::VersionMessage(text)));
            } else {
                let text = query_error(a_prog_name, q.as_str());
                return Result::Err(single_err(OptParseError::VersionMessage(text)));
            }
        },
        Option::None => {},
    }
    let mut errs = OptParseErrors::from_vec(aerrs);
    if conf.flg_all {
        conf.flg_bytes = true;
        conf.flg_chars = true;
        conf.flg_lines = true;
        conf.flg_words = true;
        conf.flg_max_line_bytes = true;
    } else if !conf.flg_bytes && !conf.flg_chars && !conf.flg_lines && !conf.flg_words
        && !conf.flg_map_ascii {
        errs.push(OptParseError::MissingOption(String::from_str("b, c, l, w, a or --map-ascii")));
    }
    if free.len() > 0 {
        errs.push(OptParseError::UnexpectedArgument(free[0].clone()));
        proof {
            assert(free.deep_view()[0] == free@[0]@);
        }
    }
    proof {
        let errs2 = pr.1 + (if nothing_selected(pr.0) {
            seq![PErrV::MissingOption(missing_opt_text())]
        } else {
            Seq::<PErrV>::empty()
        }) + (if lx.free.len() > 0 {
            seq![PErrV::UnexpectedArgument(lx.free[0])]
        } else {
            Seq::<PErrV>::empty()
        });
        assert(errs@ =~~= errs2);
    }
    if errs.len() > 0 {
        return Result::Err(errs);
    }
    proof {
        assert(conf@ =~~= expand_all(pr.0));
    }
    Result::Ok(conf)
}

/// A text that lists locale names: the fixed prefix, then names the locale
/// table knows, separated by spaces.
pub open spec fn is_locale_list_text(t: Seq<char>) -> bool {
    exists|names: Seq<Seq<char>>|
        t == "locales: C "@ + join_sep(names, " "@) && (forall|i: int|
            0 <= i < names.len() ==> is_locale_name(#[trigger] names[i]))
}

} // verus!
