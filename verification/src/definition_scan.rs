//! Finding the first rule definition in a text with a regular expression:
//! `%:`, an optional name and up to three brace groups (header, body and
//! text to append), whose contents may hold `.`-escaped characters.
use vstd::prelude::*;
use vstd::string::*;

verus! {

broadcast use vstd::string::group_string_axioms;

/// The pattern of a rule definition: `%:`, an optional name, then up to
/// three `{...}` groups, white space allowed before each part.
pub const DEFINITION_PATTERN: &'static str = r"%:(?:\s*([a-zA-Z0-9_]+))?(?:\s*\{((?:[^\.\}]|(?:\..))*)\}(?:\s*\{((?:[^\.\}]|(?:\..))*)\}(?:\s*\{((?:[^\.\}]|(?:\..))*)\})?)?)?";

/// The groups of the first match of `pattern` in `haystack`, each as its
/// start and end byte offsets and its text (`None` for a group that took no
/// part in the match), group 0 being the whole match; `Ok(None)` where
/// nothing matches, `Err` where the pattern does not compile.
pub uninterp spec fn regex_first_captures(
    pattern: Seq<char>,
    haystack: Seq<char>,
) -> Result<Option<Seq<Option<(usize, usize, Seq<char>)>>>, ()>;

pub open spec fn groups_view(g: Seq<Option<(usize, usize, String)>>) -> Seq<Option<(usize, usize, Seq<char>)>> {
    g.map_values(
        |x: Option<(usize, usize, String)>| match x {
            Some((s, e, t)) => Some((s, e, t@)),
            None => None,
        },
    )
}

pub open spec fn captures_view(
    r: Result<Option<Vec<Option<(usize, usize, String)>>>, ()>,
) -> Result<Option<Seq<Option<(usize, usize, Seq<char>)>>>, ()> {
    match r {
        Ok(Some(g)) => Ok(Some(groups_view(g@))),
        Ok(None) => Ok(None),
        Err(()) => Err(()),
    }
}

/// Compiles `pattern` with `regex::Regex::new` and takes the groups of its
/// first match in `haystack` with `Regex::captures` (the first match that
/// `captures_iter` yields), reading each group with `Captures::get`.
/// The result is named `regex_first_captures`; the contract adds what the
/// documentation of `Captures::get` promises: group 0, the whole match, is
/// always there. Nothing is stated of which text the pattern matches.
#[verifier::external_body]
fn first_captures(pattern: &str, haystack: &str) -> (r: Result<Option<Vec<Option<(usize, usize, String)>>>, ()>)
    ensures
        captures_view(r) == regex_first_captures(pattern@, haystack@),
        r matches Ok(Some(g)) ==> g@.len() > 0 && g@[0] is Some,
{
    let re = match regex::Regex::new(pattern) {
        Ok(re) => re,
        Err(_) => return Err(()),
    };
    let caps = match re.captures(haystack) {
        Some(caps) => caps,
        None => return Ok(None),
    };
    let mut groups = Vec::new();
    for i in 0..caps.len() {
        groups.push(caps.get(i).map(|m| (m.start(), m.end(), m.as_str().to_string())));
    }
    Ok(Some(groups))
}

/// A rule definition as text: its header, its body and the text to append,
/// each as written between its braces.
#[derive(PartialEq, Eq, Debug)]
pub struct RawRuleVariant {
    pub match_: Option<String>,
    pub replace: Option<String>,
    pub append: String,
}

pub struct RawRuleVariantView {
    pub match_: Option<Seq<char>>,
    pub replace: Option<Seq<char>>,
    pub append: Seq<char>,
}

impl View for RawRuleVariant {
    type V = RawRuleVariantView;

    open spec fn view(&self) -> RawRuleVariantView {
        RawRuleVariantView {
            match_: match self.match_ {
                Some(s) => Some(s@),
                None => None,
            },
            replace: match self.replace {
                Some(s) => Some(s@),
                None => None,
            },
            append: self.append@,
        }
    }
}

/// The text of group `i`, if it took part in the match.
pub open spec fn group_text(g: Seq<Option<(usize, usize, Seq<char>)>>, i: int) -> Option<Seq<char>> {
    if 0 <= i < g.len() {
        match g[i] {
            Some((_, _, t)) => Some(t),
            None => None,
        }
    } else {
        None
    }
}

/// The definition that the groups of a match stand for: the span of the
/// whole match, the name (empty where there is none), and the header, body
/// and text to append (empty where there is none).
pub open spec fn definition_spec(g: Seq<Option<(usize, usize, Seq<char>)>>) -> ((usize, usize), Seq<char>, RawRuleVariantView) {
    let (start, end, _) = g[0]->Some_0;
    (
        (start, end),
        match group_text(g, 1) {
            Some(t) => t,
            None => Seq::empty(),
        },
        RawRuleVariantView {
            match_: group_text(g, 2),
            replace: group_text(g, 3),
            append: match group_text(g, 4) {
                Some(t) => t,
                None => Seq::empty(),
            },
        },
    )
}

pub open spec fn definition_result_view(
    r: Option<((usize, usize), String, RawRuleVariant)>,
) -> Option<((usize, usize), Seq<char>, RawRuleVariantView)> {
    match r {
        Some((span, name, v)) => Some((span, name@, v@)),
        None => None,
    }
}

fn group_string(g: &Vec<Option<(usize, usize, String)>>, i: usize) -> (r: Option<String>)
    ensures
        match r {
            Some(s) => group_text(groups_view(g@), i as int) == Some(s@),
            None => group_text(groups_view(g@), i as int) is None,
        },
{
    if i < g.len() {
        match &g[i] {
            Some((_, _, t)) => Some(t.clone()),
            None => None,
        }
    } else {
        None
    }
}

/// The definition that the groups of the first match stand for (see
/// `definition_spec`); none where nothing matched.
pub fn definition_from_captures(
    caps: Option<Vec<Option<(usize, usize, String)>>>,
) -> (r: Option<((usize, usize), String, RawRuleVariant)>)
    requires
        caps matches Some(g) ==> g@.len() > 0 && g@[0] is Some,
    ensures
        definition_result_view(r) == match caps {
            Some(g) => Some(definition_spec(groups_view(g@))),
            None => None,
        },
{
    match caps {
        None => None,
        Some(g) => {
            let (start, end) = match &g[0] {
                Some((s, e, _)) => (*s, *e),
                None => (0, 0),
            };
            let name = match group_string(&g, 1) {
                Some(t) => t,
                None => String::new(),
            };
            let append = match group_string(&g, 4) {
                Some(t) => t,
                None => String::new(),
            };
            let v = RawRuleVariant { match_: group_string(&g, 2), replace: group_string(&g, 3), append: append };
            Some(((start, end), name, v))
        },
    }
}

/// The first rule definition in `grammar` (see `DEFINITION_PATTERN` and
/// `definition_spec`): the span of its text, its name, and its parts as
/// written. None where there is none, or where the pattern could not be
/// compiled.
pub fn find_first_definition(grammar: &str) -> (r: Option<((usize, usize), String, RawRuleVariant)>)
    ensures
        definition_result_view(r) == match regex_first_captures(DEFINITION_PATTERN@, grammar@) {
            Ok(Some(g)) => Some(definition_spec(g)),
            _ => None,
        },
{
    match first_captures(DEFINITION_PATTERN, grammar) {
        Ok(caps) => definition_from_captures(caps),
        Err(()) => None,
    }
}

} // verus!
