//! Option-parse errors: the taxonomy, the display text of each kind, and
//! the consolidated list that a failed parse hands back.
use vstd::prelude::*;
use crate::text::join_sep;
use crate::text::join_strings;

verus! {

/// The mathematical image of one parse error.
#[verifier::ext_equal]
pub ghost enum PErrV {
    /// A help request, carrying the text to print.
    HelpMsg(Seq<char>),
    /// A version or query answer, carrying the text to print.
    VersionMsg(Seq<char>),
    InvalidOption(Seq<char>),
    MissingOption(Seq<char>),
    InvalidOptionArgument(Seq<char>, Seq<char>),
    UnexpectedOptionArgument(Seq<char>, Seq<char>),
    MissingOptionArgument(Seq<char>),
    UnexpectedArgument(Seq<char>),
    /// The request to print the installed package-version report, which only
    /// the caller can read from disk.
    XPackageVersionInfo,
}

/// The display text of one parse error.
pub open spec fn perr_text(e: PErrV) -> Seq<char> {
    match e {
        PErrV::HelpMsg(t) => t,
        PErrV::VersionMsg(t) => t,
        PErrV::InvalidOption(n) => "Invalid option: "@ + n,
        PErrV::MissingOption(n) => "Missing option: "@ + n,
        PErrV::InvalidOptionArgument(n, v) => "Invalid option argument: "@ + n + ": "@ + v,
        PErrV::UnexpectedOptionArgument(n, v) => "Unexpected option argument: "@ + n + ": "@ + v,
        PErrV::MissingOptionArgument(n) => "Missing option argument: "@ + n,
        PErrV::UnexpectedArgument(n) => "Unexpected argument: "@ + n,
        PErrV::XPackageVersionInfo => Seq::empty(),
    }
}

/// The display texts of a list of parse errors.
pub open spec fn perr_texts(es: Seq<PErrV>) -> Seq<Seq<char>> {
    es.map_values(|e: PErrV| perr_text(e))
}

/// The consolidated display text: one error per line.
pub open spec fn errs_text(es: Seq<PErrV>) -> Seq<char> {
    join_sep(perr_texts(es), "\n"@)
}

/// The first help or version answer in a list, if any.
pub open spec fn find_help_version_text(es: Seq<PErrV>) -> Option<Seq<char>>
    decreases es.len(),
{
    if es.len() == 0 {
        Option::None
    } else {
        match es[0] {
            PErrV::HelpMsg(t) => Option::Some(t),
            PErrV::VersionMsg(t) => Option::Some(t),
            _ => find_help_version_text(es.drop_first()),
        }
    }
}

/// One option-parse error.
pub enum OptParseError {
    HelpMessage(String),
    VersionMessage(String),
    InvalidOption(String),
    MissingOption(String),
    InvalidOptionArgument(String, String),
    UnexpectedOptionArgument(String, String),
    MissingOptionArgument(String),
    UnexpectedArgument(String),
    XPackageVersionInfo,
}

impl View for OptParseError {
    type V = PErrV;

    open spec fn view(&self) -> PErrV {
        match self {
            OptParseError::HelpMessage(t) => PErrV::HelpMsg(t@),
            OptParseError::VersionMessage(t) => PErrV::VersionMsg(t@),
            OptParseError::InvalidOption(n) => PErrV::InvalidOption(n@),
            OptParseError::MissingOption(n) => PErrV::MissingOption(n@),
            OptParseError::InvalidOptionArgument(n, v) => PErrV::InvalidOptionArgument(n@, v@),
            OptParseError::UnexpectedOptionArgument(n, v) => PErrV::UnexpectedOptionArgument(
                n@,
                v@,
            ),
            OptParseError::MissingOptionArgument(n) => PErrV::MissingOptionArgument(n@),
            OptParseError::UnexpectedArgument(n) => PErrV::UnexpectedArgument(n@),
            OptParseError::XPackageVersionInfo => PErrV::XPackageVersionInfo,
        }
    }
}

impl DeepView for OptParseError {
    type V = PErrV;

    open spec fn deep_view(&self) -> PErrV {
        self@
    }
}

impl OptParseError {
    /// Whether this is a help answer to print on the ordinary output.
    pub fn is_help(&self) -> (r: bool)
        ensures
            r == (self@ matches PErrV::HelpMsg(_)),
    {
        match self {
            OptParseError::HelpMessage(_) => true,
            _ => false,
        }
    }

    /// Whether this is a version or query answer to print on the ordinary
    /// output.
    pub fn is_version(&self) -> (r: bool)
        ensures
            r == (self@ matches PErrV::VersionMsg(_)),
    {
        match self {
            OptParseError::VersionMessage(_) => true,
            _ => false,
        }
    }

    /// The display text of this error.
    pub fn message(&self) -> (r: String)
        ensures
            r@ == perr_text(self@),
    {
        match self {
            OptParseError::HelpMessage(t) => t.clone(),
            OptParseError::VersionMessage(t) => t.clone(),
            OptParseError::InvalidOption(n) => {
                let mut s = String::from_str("Invalid option: ");
                s.append(n.as_str());
                s
            },
            OptParseError::MissingOption(n) => {
                let mut s = String::from_str("Missing option: ");
                s.append(n.as_str());
                s
            },
            OptParseError::InvalidOptionArgument(n, v) => {
                let mut s = String::from_str("Invalid option argument: ");
                s.append(n.as_str());
                s.append(": ");
                s.append(v.as_str());
                s
            },
            OptParseError::UnexpectedOptionArgument(n, v) => {
                let mut s = String::from_str("Unexpected option argument: ");
                s.append(n.as_str());
                s.append(": ");
                s.append(v.as_str());
                s
            },
            OptParseError::MissingOptionArgument(n) => {
                let mut s = String::from_str("Missing option argument: ");
                s.append(n.as_str());
                s
            },
            OptParseError::UnexpectedArgument(n) => {
                let mut s = String::from_str("Unexpected argument: ");
                s.append(n.as_str());
                s
            },
            OptParseError::XPackageVersionInfo => String::new(),
        }
    }
}

/// The consolidated list of parse errors of one run.
pub struct OptParseErrors {
    list: Vec<OptParseError>,
}

impl View for OptParseErrors {
    type V = Seq<PErrV>;

    closed spec fn view(&self) -> Seq<PErrV> {
        self.list.deep_view()
    }
}

impl OptParseErrors {
    /// An empty list.
    pub fn new() -> (r: OptParseErrors)
        ensures
            r@ =~= Seq::<PErrV>::empty(),
    {
        let r = OptParseErrors { list: Vec::new() };
        proof {
            assert(r@ =~= Seq::<PErrV>::empty());
        }
        r
    }

    /// Wraps an already collected vector of errors.
    pub fn from_vec(v: Vec<OptParseError>) -> (r: OptParseErrors)
        ensures
            r@ == v.deep_view(),
    {
        OptParseErrors { list: v }
    }

    /// Whether the list is empty.
    pub fn is_empty(&self) -> (r: bool)
        ensures
            r == (self@.len() == 0),
    {
        self.list.len() == 0
    }

    /// The number of errors.
    pub fn len(&self) -> (r: usize)
        ensures
            r == self@.len(),
    {
        self.list.len()
    }

    /// Adds one error at the end.
    pub fn push(&mut self, e: OptParseError)
        ensures
            final(self)@ =~= old(self)@.push(e@),
    {
        self.list.push(e);
    }

    /// The text of the first help or version answer, if any.
    pub fn first_help_version(&self) -> (r: Option<String>)
        ensures
            match find_help_version_text(self@) {
                Option::Some(t) => r matches Some(s) && s@ == t,
                Option::None => r is None,
            },
    {
        let mut i: usize = 0;
        proof {
            assert(self@.skip(0) =~= self@);
        }
        while i < self.list.len()
            invariant
                0 <= i <= self.list@.len(),
                find_help_version_text(self@) == find_help_version_text(self@.skip(i as int)),
            decreases self.list@.len() - i,
        {
            proof {
                assert(self@.skip(i as int)[0] == self@[i as int]);
                assert(self@.skip(i as int).drop_first() =~= self@.skip(i as int + 1));
            }
            match &self.list[i] {
                OptParseError::HelpMessage(t) => {
                    return Option::Some(t.clone());
                },
                OptParseError::VersionMessage(t) => {
                    return Option::Some(t.clone());
                },
                _ => {},
            }
            i = i + 1;
        }
        proof {
            assert(self@.skip(self.list@.len() as int) =~= Seq::<PErrV>::empty());
        }
        Option::None
    }

    /// Whether the list holds the package-version request.
    pub fn has_x_package_version_info(&self) -> (r: bool)
        ensures
            r == (exists|i: int|
                0 <= i < self@.len() && (#[trigger] self@[i]) matches PErrV::XPackageVersionInfo),
    {
        let mut i: usize = 0;
        while i < self.list.len()
            invariant
                0 <= i <= self.list@.len(),
                forall|j: int|
                    0 <= j < i ==> !((#[trigger] self@[j]) matches PErrV::XPackageVersionInfo),
            decreases self.list@.len() - i,
        {
            match &self.list[i] {
                OptParseError::XPackageVersionInfo => {
                    proof {
                        assert(self@[i as int] == self.list@[i as int]@);
                    }
                    return true;
                },
                _ => {},
            }
            i = i + 1;
        }
        false
    }

    /// The consolidated display text: one error per line.
    pub fn joined_message(&self) -> (r: String)
        ensures
            r@ == errs_text(self@),
    {
        let mut msgs: Vec<String> = Vec::new();
        let mut i: usize = 0;
        while i < self.list.len()
            invariant
                0 <= i <= self.list@.len(),
                msgs.deep_view() =~= perr_texts(self@.take(i as int)),
            decreases self.list@.len() - i,
        {
            let m = self.list[i].message();
            let ghost pre = msgs.deep_view();
            msgs.push(m);
            proof {
                assert(msgs.deep_view() =~~= pre.push(m@));
                assert(self@.take(i as int + 1) =~= self@.take(i as int).push(self@[i as int]));
                assert(perr_texts(self@.take(i as int + 1)) =~= perr_texts(
                    self@.take(i as int),
                ).push(perr_text(self@[i as int])));
            }
            i = i + 1;
        }
        proof {
            assert(self@.take(self.list@.len() as int) =~= self@);
        }
        join_strings(&msgs, "\n")
    }
}

} // verus!
