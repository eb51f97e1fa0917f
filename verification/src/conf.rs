//! The resolved command-line configuration: which statistics to produce,
//! the locale-formatting strategy, and the side-channel requests.

pub mod errs;
pub mod parse;

use vstd::prelude::*;
use crate::text::str_eq;
use crate::util::OptLocaleLoc;
use crate::util::opt_locale_loc::is_locale_name;

verus! {

/// The mathematical image of a configuration.
#[verifier::ext_equal]
pub ghost struct ConfV {
    pub prog_name: Seq<char>,
    pub all: bool,
    pub bytes: bool,
    pub chars: bool,
    pub lines: bool,
    pub words: bool,
    pub max: bool,
    pub map_ascii: bool,
    pub help: bool,
    pub version: bool,
    pub locale: Option<Seq<char>>,
    pub query: Option<Seq<char>>,
    pub x_params: Seq<Seq<char>>,
}

/// Whether a text occurs among a sequence of texts.
pub open spec fn seq_has(xs: Seq<Seq<char>>, s: Seq<char>) -> bool {
    exists|i: int| 0 <= i < xs.len() && xs[i] == s
}

/// A configuration's held locale name is one the locale table knows.
pub open spec fn confv_wf(c: ConfV) -> bool {
    c.locale matches Some(nm) ==> is_locale_name(nm)
}

/// The command-line configuration handed to the scan.
pub struct CmdOptConf {
    pub prog_name: String,
    pub flg_all: bool,
    pub flg_bytes: bool,
    pub flg_chars: bool,
    pub flg_lines: bool,
    pub flg_words: bool,
    pub flg_max_line_bytes: bool,
    pub flg_map_ascii: bool,
    pub flg_help: bool,
    pub flg_version: bool,
    pub opt_locale: OptLocaleLoc,
    pub opt_query: Option<String>,
    pub opt_uc_x: Vec<String>,
}

impl View for CmdOptConf {
    type V = ConfV;

    open spec fn view(&self) -> ConfV {
        ConfV {
            prog_name: self.prog_name@,
            all: self.flg_all,
            bytes: self.flg_bytes,
            chars: self.flg_chars,
            lines: self.flg_lines,
            words: self.flg_words,
            max: self.flg_max_line_bytes,
            map_ascii: self.flg_map_ascii,
            help: self.flg_help,
            version: self.flg_version,
            locale: self.opt_locale@,
            query: match self.opt_query {
                Option::None => Option::None,
                Option::Some(ref q) => Option::Some(q@),
            },
            x_params: self.opt_uc_x.deep_view(),
        }
    }
}

impl CmdOptConf {
    /// The held locale name, if any, is known to the locale table.
    pub open spec fn wf(&self) -> bool {
        confv_wf(self@)
    }

    /// A fresh configuration carrying only the program name.
    pub fn new_with_prog(a_prog_name: &str) -> (r: CmdOptConf)
        ensures
            r@ == conf_default(a_prog_name@),
            r.wf(),
    {
        let c = CmdOptConf {
            prog_name: String::from_str(a_prog_name),
            flg_all: false,
            flg_bytes: false,
            flg_chars: false,
            flg_lines: false,
            flg_words: false,
            flg_max_line_bytes: false,
            flg_map_ascii: false,
            flg_help: false,
            flg_version: false,
            opt_locale: OptLocaleLoc::default(),
            opt_query: Option::None,
            opt_uc_x: Vec::new(),
        };
        proof {
            assert(c@ =~~= conf_default(a_prog_name@));
        }
        c
    }

    /// Whether help was requested.
    pub fn is_help(&self) -> (r: bool)
        ensures
            r == self@.help,
    {
        self.flg_help
    }

    /// Whether the version was requested.
    pub fn is_version(&self) -> (r: bool)
        ensures
            r == self@.version,
    {
        self.flg_version
    }

    /// Whether an extra `-X` parameter equals the given text.
    fn has_uc_x(&self, what: &str) -> (r: bool)
        ensures
            r == seq_has(self@.x_params, what@),
    {
        let ghost xs = self@.x_params;
        let mut i: usize = 0;
        while i < self.opt_uc_x.len()
            invariant
                0 <= i <= self.opt_uc_x@.len(),
                xs == self@.x_params,
                xs.len() == self.opt_uc_x@.len(),
                forall|j: int| 0 <= j < self.opt_uc_x@.len() ==> #[trigger] xs[j]
                    == self.opt_uc_x@[j]@,
                forall|j: int| 0 <= j < i ==> xs[j] != what@,
            decreases self.opt_uc_x@.len() - i,
        {
            if str_eq(self.opt_uc_x[i].as_str(), what) {
                proof {
                    assert(xs[i as int] == what@);
                }
                return true;
            }
            i = i + 1;
        }
        false
    }

    /// Whether an extra `-X help` parameter was given.
    pub fn is_opt_uc_x_help(&self) -> (r: bool)
        ensures
            r == seq_has(self@.x_params, "help"@),
    {
        self.has_uc_x("help")
    }

    /// Whether an extra `-X rust-version-info` parameter was given.
    pub fn is_opt_uc_x_package_version_info(&self) -> (r: bool)
        ensures
            r == seq_has(self@.x_params, "rust-version-info"@),
    {
        self.has_uc_x("rust-version-info")
    }

    /// Whether the histogram is to be rendered in its compact array form.
    pub fn is_opt_uc_x_map_ascii_rust_src(&self) -> (r: bool)
        ensures
            r == seq_has(self@.x_params, "map-ascii-rust-src"@),
    {
        self.has_uc_x("map-ascii-rust-src")
    }
}

/// A fresh configuration's image: no statistic selected, plain decimal
/// rendering, no side-channel request.
pub open spec fn conf_default(prog: Seq<char>) -> ConfV {
    ConfV {
        prog_name: prog,
        all: false,
        bytes: false,
        chars: false,
        lines: false,
        words: false,
        max: false,
        map_ascii: false,
        help: false,
        version: false,
        locale: Option::None,
        query: Option::None,
        x_params: Seq::empty(),
    }
}

} // verus!
