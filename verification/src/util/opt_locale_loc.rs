//! The locale-formatting strategy: a counter is rendered either in plain
//! decimal notation, or grouped by a named locale's rules.  The grouping
//! itself is the work of the `num_format` crate; this module holds the value
//! as the locale's name and states the calls' behaviour over that name.
use vstd::prelude::*;
use num_format::ToFormattedString;
use crate::numstr::dec_digits;
use crate::numstr::u64_to_string;
use crate::text::str_eq;

verus! {

/// Whether a text is the name of a supported locale.
pub uninterp spec fn is_locale_name(s: Seq<char>) -> bool;

/// The diagnostic text that the locale table gives for a name it does not
/// know.
pub uninterp spec fn locale_err_text(s: Seq<char>) -> Seq<char>;

/// The decimal notation of a number grouped by the named locale's rules.
pub uninterp spec fn grouped_by_locale(name: Seq<char>, v: u64) -> Seq<char>;

/// Relies on `num_format::Locale::from_name`: it succeeds exactly on the
/// supported locale names, and its error's display text is a function of the
/// rejected name alone.
#[verifier::external_body]
fn locale_lookup(s: &str) -> (r: Result<(), String>)
    ensures
        r is Ok <==> is_locale_name(s@),
        r matches Err(m) ==> m@ == locale_err_text(s@),
{
    match num_format::Locale::from_name(s) {
        Ok(_) => Ok(()),
        Err(e) => Err(format!("{}", e)),
    }
}

/// Relies on `num_format`'s `ToFormattedString::to_formatted_string` (and on
/// `Locale::from_name` to resolve the name): the grouped rendering of a
/// `u64` is a function of the locale's name and the value alone.
#[verifier::external_body]
fn format_with_locale(name: &str, v: u64) -> (r: String)
    requires
        is_locale_name(name@),
    ensures
        r@ == grouped_by_locale(name@, v),
{
    let loc = num_format::Locale::from_name(name).unwrap();
    v.to_formatted_string(&loc)
}

/// Relies on `num_format::Locale::available_names`: every listed name is
/// accepted by `Locale::from_name`.
#[verifier::external_body]
pub(crate) fn locale_available_names() -> (r: Vec<String>)
    ensures
        forall|i: int| 0 <= i < r@.len() ==> is_locale_name(#[trigger] r@[i]@),
{
    num_format::Locale::available_names().iter().map(|s| s.to_string()).collect()
}

/// The rendering of a counter under a locale strategy: plain decimal when no
/// locale is selected, the locale's grouping otherwise.
pub open spec fn fmt_value(loc: Option<Seq<char>>, v: u64) -> Seq<char> {
    match loc {
        Option::None => dec_digits(v as nat),
        Option::Some(nm) => grouped_by_locale(nm, v),
    }
}

/// A locale-formatting strategy selected by name; `None` is the plain `"C"`
/// strategy.
#[derive(Debug)]
pub struct OptLocaleLoc {
    name: Option<String>,
}

impl View for OptLocaleLoc {
    type V = Option<Seq<char>>;

    closed spec fn view(&self) -> Option<Seq<char>> {
        match self.name {
            Option::None => Option::None,
            Option::Some(ref s) => Option::Some(s@),
        }
    }
}

impl OptLocaleLoc {
    /// A held locale name is one the locale table knows.
    pub open spec fn wf(&self) -> bool {
        self@ matches Some(nm) ==> is_locale_name(nm)
    }

    /// Renders a counter under this strategy.
    pub fn formatted_string(&self, v: u64) -> (r: String)
        requires
            self.wf(),
        ensures
            r@ == fmt_value(self@, v),
    {
        match &self.name {
            Option::None => u64_to_string(v),
            Option::Some(nm) => format_with_locale(nm.as_str(), v),
        }
    }

    /// The strategy's own name: `"C"` when no locale is selected.
    pub fn name_string(&self) -> (r: String)
        ensures
            self@ matches Some(nm) ==> r@ == nm,
            self@ is None ==> r@ == "C"@,
    {
        match &self.name {
            Option::None => {
                let mut s = String::new();
                s.append("C");
                proof {
                    assert(s@ =~= "C"@);
                }
                s
            },
            Option::Some(nm) => nm.clone(),
        }
    }

    /// Parses a strategy name: `"C"` selects plain decimal rendering, any
    /// supported locale name selects that locale, and any other text is
    /// rejected with the locale table's diagnostic.
    pub fn parse_loc(s: &str) -> (r: Result<OptLocaleLoc, OptLocaleLocParseError>)
        ensures
            r is Ok <==> (s@ == "C"@ || is_locale_name(s@)),
            r matches Ok(loc) ==> loc.wf() && loc@ == (if s@ == "C"@ {
                Option::<Seq<char>>::None
            } else {
                Option::<Seq<char>>::Some(s@)
            }),
            r matches Err(e) ==> e@ == seq!['\''] + s@ + seq!['\'', ':', ' '] + locale_err_text(
                s@,
            ),
    {
        if str_eq(s, "C") {
            Ok(OptLocaleLoc { name: Option::None })
        } else {
            match locale_lookup(s) {
                Ok(_) => Ok(OptLocaleLoc { name: Option::Some(String::from_str(s)) }),
                Err(m) => {
                    let mut d = String::new();
                    d.append("'");
                    d.append(s);
                    d.append("': ");
                    d.append(m.as_str());
                    proof {
                        reveal_strlit("'");
                        reveal_strlit("': ");
                        assert(d@ =~= seq!['\''] + s@ + seq!['\'', ':', ' '] + locale_err_text(
                            s@,
                        ));
                    }
                    Err(OptLocaleLocParseError::new(d))
                },
            }
        }
    }
}

impl Default for OptLocaleLoc {
    /// The default strategy renders plain decimal.
    fn default() -> (r: OptLocaleLoc)
        ensures
            r@ is None,
            r.wf(),
    {
        OptLocaleLoc { name: Option::None }
    }
}

impl Clone for OptLocaleLoc {
    fn clone(&self) -> (r: OptLocaleLoc)
        ensures
            r@ == self@,
    {
        OptLocaleLoc {
            name: match &self.name {
                Option::None => Option::None,
                Option::Some(s) => Option::Some(s.clone()),
            },
        }
    }
}

/// A rejected locale name, carrying its diagnostic text.
#[derive(Debug)]
pub struct OptLocaleLocParseError {
    desc: String,
}

impl View for OptLocaleLocParseError {
    type V = Seq<char>;

    closed spec fn view(&self) -> Seq<char> {
        self.desc@
    }
}

impl OptLocaleLocParseError {
    /// Wraps a diagnostic text.
    pub fn new(s: String) -> (r: OptLocaleLocParseError)
        ensures
            r@ == s@,
    {
        OptLocaleLocParseError { desc: s }
    }

    /// The diagnostic text.
    pub fn message(&self) -> (r: String)
        ensures
            r@ == self@,
    {
        self.desc.clone()
    }
}

} // verus!
