//! Text statistics library: counts lines, bytes, Unicode characters, words
//! and maximum line length of a text stream, with an optional per-byte ASCII
//! histogram, in the manner of the Unix `wc` command.
//!
//! The caller hands [`execute`] the program name, the command-line
//! arguments, and the decoded input text; it receives back what belongs on
//! each output stream and how the run ended.  Reading the streams and
//! decoding the input stay with the caller.

pub mod conf;
pub mod counts;
pub mod laws;
pub mod numstr;
pub mod run;
pub mod split;
pub mod text;
pub mod util;

use vstd::prelude::*;
use crate::conf::errs::PErrV;
use crate::conf::errs::errs_text;
use crate::conf::errs::find_help_version_text;
use crate::conf::parse::ParseOutV;
use crate::conf::parse::is_locale_list_text;
use crate::conf::parse::parse_cmdopts;
use crate::conf::parse::parse_spec;
use crate::run::run_text;
use crate::text::byte_len;

pub use crate::conf::CmdOptConf;
pub use crate::run::Stats;
pub use crate::run::StatsAscii;
pub use crate::run::my_formatted;
pub use crate::run::run;
pub use crate::text::is_ascii_wsp;
pub use crate::util::OptLocaleLoc;
pub use crate::util::OptLocaleLocParseError;

verus! {

/// What one invocation produced: the text for the ordinary output, the text
/// for the error output, whether the run counts as a success, and whether
/// the caller still has to print the installed package-version report,
/// which only it can read from disk.
pub struct ExecReport {
    pub out: String,
    pub err: String,
    pub success: bool,
    pub rust_version_info: bool,
}

/// One invocation: parses the arguments and either runs the scan over the
/// input, answers a help, version or query request, or reports the
/// configuration errors with a hint to consult help.
pub fn execute(prog_name: &str, args: &Vec<String>, input: &str) -> (r: ExecReport)
    requires
        byte_len(input@) <= u64::MAX,
    ensures
        match parse_spec(prog_name@, args.deep_view()) {
            ParseOutV::Conf(cv) => r.out@ == run_text(cv, input@) && r.err@ == Seq::<char>::empty()
                && r.success && !r.rust_version_info,
            ParseOutV::Errs(es) => match find_help_version_text(es) {
                Option::Some(t) => r.out@ == t + "\n"@ && r.err@ == Seq::<char>::empty()
                    && r.success && !r.rust_version_info,
                Option::None => {
                    if es.len() == 1 && (es[0] matches PErrV::XPackageVersionInfo) {
                        r.out@ == Seq::<char>::empty() && r.err@ == Seq::<char>::empty()
                            && r.success && r.rust_version_info
                    } else {
                        r.out@ == Seq::<char>::empty() && r.err@ == prog_name@ + ": "@ + errs_text(
                            es,
                        ) + "\nTry --help for help.\n"@ && !r.success && !r.rust_version_info
                    }
                },
            },
            ParseOutV::QueryLocale => (exists|t: Seq<char>|
                r.out@ == t + "\n"@ && #[trigger] is_locale_list_text(t)) && r.err@
                == Seq::<char>::empty() && r.success && !r.rust_version_info,
        },
{
    match parse_cmdopts(prog_name, args) {
        Result::Ok(conf) => {
            let out = crate::run::run(&conf, input);
            ExecReport { out, err: String::new(), success: true, rust_version_info: false }
        },
        Result::Err(errs) => {
            match errs.first_help_version() {
                Option::Some(t) => {
                    let mut out = t;
                    out.append("\n");
                    ExecReport { out, err: String::new(), success: true, rust_version_info: false }
                },
                Option::None => {
                    if errs.len() == 1 && errs.has_x_package_version_info() {
                        ExecReport {
                            out: String::new(),
                            err: String::new(),
                            success: true,
                            rust_version_info: true,
                        }
                    } else {
                        let mut err = String::from_str(prog_name);
                        err.append(": ");
                        let joined = errs.joined_message();
                        err.append(joined.as_str());
                        err.append("\nTry --help for help.\n");
                        ExecReport {
                            out: String::new(),
                            err,
                            success: false,
                            rust_version_info: false,
                        }
                    }
                },
            }
        },
    }
}

} // verus!
