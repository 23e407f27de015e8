//! Compiled regular expressions of the `regex` crate, and the capture groups
//! that a search with one of them yields.
use vstd::prelude::*;
use crate::text::is_substring;

verus! {

#[verifier::external_type_specification]
#[verifier::external_body]
pub struct ExRegex(regex::Regex);

#[verifier::external_type_specification]
#[verifier::external_body]
pub struct ExRegexError(regex::Error);

/// The capture groups of the leftmost-first match of the regular expression
/// `pattern` in `haystack`, as `regex::Regex::captures` finds them: `None`
/// where nothing matches, else one entry per group (group 0 being the whole
/// match), `None` for a group that took no part in the match.
pub uninterp spec fn regex_captures_of(pattern: Seq<char>, haystack: Seq<char>) -> Option<
    Seq<Option<Seq<char>>>,
>;

/// Whether `regex::Regex::new` accepts `pattern`: a valid regular
/// expression whose compiled program stays within the crate's default size
/// limit.
pub uninterp spec fn regex_compiles(pattern: Seq<char>) -> bool;

/// The capture groups of a search, one entry per group, each the text the
/// group matched or `None`.
pub type Groups = Vec<Option<String>>;

/// A regular expression together with the pattern it was compiled from.
pub struct Pattern {
    source: String,
    re: regex::Regex,
}

/// Why a pattern did not compile.
#[derive(Clone, Copy, Debug, PartialEq, Eq, Structural)]
pub enum PatternError {
    /// The pattern is not a valid regular expression, or compiles to a
    /// program larger than the `regex` crate's default size limit.
    Invalid,
}

/// `regex::Regex::new`: compiles `source` and pairs the compiled program
/// with the source text it was compiled from. The crate documents that an
/// invalid pattern, or one whose program exceeds the size limit, gives an
/// error; the contract names that outcome `regex_compiles` (a function of
/// the pattern alone) and does not state which patterns those are.
#[verifier::external_body]
fn compile(source: &str) -> (r: Result<Pattern, regex::Error>)
    ensures
        r is Ok <==> regex_compiles(source@),
        r matches Ok(p) ==> p@ == source@,
{
    match regex::Regex::new(source) {
        Ok(re) => Ok(Pattern { source: source.to_string(), re }),
        Err(e) => Err(e),
    }
}

impl View for Pattern {
    type V = Seq<char>;

    closed spec fn view(&self) -> Seq<char> {
        self.source@
    }
}

impl Pattern {
    /// Compiles `source`: succeeds exactly when the `regex` crate accepts
    /// it; a compiled pattern remembers its source.
    pub fn new(source: &str) -> (r: Result<Pattern, PatternError>)
        ensures
            r is Ok <==> regex_compiles(source@),
            r matches Ok(p) ==> p@ == source@,
            r matches Err(e) ==> e == PatternError::Invalid,
    {
        match compile(source) {
            Ok(p) => Ok(p),
            Err(_) => Err(PatternError::Invalid),
        }
    }

    /// The pattern this regular expression was compiled from.
    pub fn source(&self) -> (r: &str)
        ensures
            r@ == self@,
    {
        self.source.as_str()
    }

    /// `regex::Regex::captures`: the capture groups of the leftmost-first
    /// match in `haystack`, each converted to an owned string. The contract
    /// equates the result with `regex_captures_of` of this pattern's source
    /// and the haystack (only `compile`, which compiles a source and stores
    /// it beside its program, builds a `Pattern`), and states what the crate
    /// documents of `Match::as_str`: each group's text is a substring of the
    /// haystack.
    #[verifier::external_body]
    pub(crate) fn captures(&self, haystack: &str) -> (r: Option<Groups>)
        ensures
            r.deep_view() == regex_captures_of(self@, haystack@),
            r.deep_view() matches Some(g) ==> forall|i: int|
                0 <= i < g.len() && #[trigger] g[i] is Some ==> is_substring(
                    g[i].unwrap(),
                    haystack@,
                ),
    {
        self.re.captures(haystack).map(
            |c| c.iter().map(|m| m.map(|m| m.as_str().to_string())).collect(),
        )
    }
}

/// Text of capture group `i`: `None` where there was no match, else the
/// group's text, or the empty text where the group took no part or does
/// not exist (`caps.get(i).map_or("", |m| m.as_str())`).
pub open spec fn group_text_spec(caps: Option<Seq<Option<Seq<char>>>>, i: int) -> Option<
    Seq<char>,
> {
    match caps {
        None => None,
        Some(g) => Some(
            if 0 <= i < g.len() && g[i] is Some {
                g[i].unwrap()
            } else {
                Seq::<char>::empty()
            },
        ),
    }
}

/// Text of capture group `i` of a search result, as `group_text_spec` says.
pub fn group_text(caps: &Option<Groups>, i: usize) -> (r: Option<String>)
    ensures
        r.deep_view() == group_text_spec(caps.deep_view(), i as int),
{
    match caps {
        None => None,
        Some(g) => {
            if i < g.len() {
                match &g[i] {
                    Some(t) => {
                        assert(g.deep_view()[i as int] == g@[i as int].deep_view());
                        Some(t.clone())
                    },
                    None => {
                        assert(g.deep_view()[i as int] == g@[i as int].deep_view());
                        Some(String::new())
                    },
                }
            } else {
                Some(String::new())
            }
        },
    }
}

} // verus!
