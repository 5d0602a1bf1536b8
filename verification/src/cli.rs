//! Command-line data: subcommands, flags, and the wire spellings of the
//! enumerated options.

use vstd::prelude::*;

use crate::text;

verus! {

/// A channel type the listing endpoint understands.
#[derive(Clone, Copy, PartialEq, Eq, Structural, Debug)]
pub enum SearchType {
    PublicChannel,
    PrivateChannel,
    Im,
    Mpim,
}

impl SearchType {
    /// The wire spelling of a search type.
    pub open spec fn api_view(self) -> Seq<char> {
        match self {
            SearchType::PublicChannel => "public_channel"@,
            SearchType::PrivateChannel => "private_channel"@,
            SearchType::Im => "im"@,
            SearchType::Mpim => "mpim"@,
        }
    }

    /// The wire spelling of a search type.
    pub fn as_api_str(self) -> (r: &'static str)
        ensures
            r@ == self.api_view(),
    {
        match self {
            SearchType::PublicChannel => "public_channel",
            SearchType::PrivateChannel => "private_channel",
            SearchType::Im => "im",
            SearchType::Mpim => "mpim",
        }
    }
}

/// The comma-joined wire spelling of a list of search types.
pub fn search_types_to_api_string(types: &Vec<SearchType>) -> (r: String)
    ensures
        r@ == text::join_commas_spec(Seq::new(types@.len(), |i: int| types@[i].api_view())),
{
    let mut parts: Vec<String> = Vec::new();
    let n = types.len();
    let mut i: usize = 0;
    while i < n
        invariant
            i <= n,
            n == types@.len(),
            parts@.len() == i,
            parts.deep_view().len() == i,
            forall|j: int| 0 <= j < i ==> parts.deep_view()[j] == #[trigger] parts@[j]@,
            forall|j: int| 0 <= j < i ==> #[trigger] parts@[j]@ == types@[j].api_view(),
        decreases n - i,
    {
        let ghost old_dv = parts.deep_view();
        let part = String::from_str(types[i].as_api_str());
        let ghost part_view = part@;
        parts.push(part);
        proof {
            assert(parts.deep_view() =~= old_dv.push(part_view));
        }
        i = i + 1;
    }
    let r = text::join_commas(&parts);
    proof {
        assert(parts.deep_view() =~~= Seq::new(types@.len(), |i: int| types@[i].api_view()));
    }
    r
}

/// The output format of the search listing.
#[derive(Clone, Copy, PartialEq, Eq, Structural, Debug)]
pub enum OutputFormat {
    Table,
    Tsv,
    Json,
}

/// A token-store management action.
#[derive(Clone, Copy, PartialEq, Eq, Structural, Debug)]
pub enum TokenAction {
    Store,
    Delete,
    Show,
}

/// A subcommand of the program.
pub enum Command {
    Init,
    Validate,
    Search { query: String, output: Option<OutputFormat>, types: Option<Vec<SearchType>> },
    Token { action: TokenAction },
}

/// The send arguments.  `None` is an absent flag; an empty string is a
/// flag given without a value, requesting standard input.
pub struct SendArgs {
    pub text: Option<String>,
    pub file: Option<String>,
    pub filename: String,
    pub yes: bool,
}

/// The parsed command line.
pub struct Cli {
    pub profile: Option<String>,
    pub headless: bool,
    pub command: Option<Command>,
    pub send: SendArgs,
}

} // verus!
