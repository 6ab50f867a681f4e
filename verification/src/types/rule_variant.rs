//! Rule variants: one alternative of a rule, with its header, body and flags.
use vstd::prelude::*;
use vstd::string::*;
use crate::types::invocation_string::{InvocationString, InvocationStringView, istr_display};
use crate::error::{MatchError, MatchResult, ErrorView, plain_error};
use crate::text::str_eq;

verus! {

broadcast use vstd::string::group_string_axioms;

/// The model of a rule variant.
pub struct RuleVariantView {
    pub parameter_header: Option<InvocationStringView>,
    pub header: InvocationStringView,
    pub body: Option<InvocationStringView>,
    pub flags: Set<Seq<char>>,
    pub catch_unknown_rule: Option<InvocationStringView>,
}

pub open spec fn opt_view(o: Option<InvocationString>) -> Option<InvocationStringView> {
    match o {
        Some(s) => Some(s@),
        None => None,
    }
}

/// The text form of a variant: `(parameter header) {header} -> {body}`,
/// each part present where the variant has it.
pub open spec fn variant_display(v: RuleVariantView) -> Seq<char> {
    (match v.parameter_header {
        Some(p) => "("@ + istr_display(p) + ") "@,
        None => Seq::empty(),
    }) + "{"@ + istr_display(v.header) + "}"@ + (match v.body {
        Some(b) => " -> {"@ + istr_display(b) + "}"@,
        None => Seq::empty(),
    })
}

/// The error of a variant whose flags do not pass the checks for a rule of
/// the name `name`.
pub open spec fn verify_error(name: Seq<char>, v: RuleVariantView) -> ErrorView {
    plain_error(
        " --- Failed to verify rule variant %: "@ + name + " {"@ + variant_display(v) + "}\n --- "@
            + if v.flags.contains("once"@) && name.len() > 0 {
            "Can only use flag (once) on unnamed rules"@
        } else {
            "Flag 'debug' is deprecated."@
        },
    )
}

/// A rule variant as written, before its flags were checked.
#[derive(Eq, Debug)]
pub struct UntrustedRuleVariant {
    _parameter_header: Option<InvocationString>,
    _header: InvocationString,
    _body: Option<InvocationString>,
    _flags: Vec<String>,
    _catch_unknown_rule: Option<InvocationString>,
}

/// A rule variant whose flags were checked.
#[derive(PartialEq, Eq, Debug)]
pub struct RuleVariant(UntrustedRuleVariant);

pub closed spec fn flag_views(f: Seq<String>) -> Seq<Seq<char>> {
    f.map_values(|s: String| s@)
}

pub closed spec fn flags_set(f: Seq<String>) -> Set<Seq<char>> {
    flag_views(f).to_set()
}

/// No strings make no flags.
pub proof fn lemma_flags_set_empty()
    ensures
        flags_set(Seq::empty()) == Set::<Seq<char>>::empty(),
{
    assert(flag_views(Seq::empty()) =~= Seq::empty());
    assert(flags_set(Seq::empty()) =~= Set::<Seq<char>>::empty());
}

/// No flags exactly where there are no strings.
pub proof fn lemma_flags_set_empty_iff(f: Seq<String>)
    ensures
        (flags_set(f) == Set::<Seq<char>>::empty()) == (f.len() == 0),
{
    if f.len() == 0 {
        lemma_flags_set_empty();
        assert(f =~= Seq::<String>::empty());
    } else {
        assert(flag_views(f)[0] == f[0]@);
        assert(flag_views(f).contains(f[0]@));
        assert(flags_set(f).contains(f[0]@));
    }
}

/// One string more makes one flag more.
pub proof fn lemma_flags_set_push(f: Seq<String>, x: String)
    ensures
        flags_set(f.push(x)) == flags_set(f).insert(x@),
{
    assert(flag_views(f.push(x)) =~= flag_views(f).push(x@));
    flag_views(f).lemma_push_to_set_commute(x@);
}

/// `v` with the flags `fs` added one after the other, as `flag` adds one.
pub open spec fn flags_added_in_turn(v: RuleVariantView, fs: Seq<Seq<char>>) -> RuleVariantView
    decreases fs.len(),
{
    if fs.len() == 0 {
        v
    } else {
        flags_added_in_turn(RuleVariantView { flags: v.flags.insert(fs[0]), ..v }, fs.drop_first())
    }
}

/// Adding several flags at once (`flags`) is adding each of them in turn
/// (`flag`): the flags only grow, and their order does not matter.
pub proof fn law_flags_in_turn(v: RuleVariantView, strings: Seq<String>)
    ensures
        flags_added_in_turn(v, flag_views(strings)) == (RuleVariantView { flags: v.flags.union(flags_set(strings)), ..v }),
    decreases strings.len(),
{
    let fs = flag_views(strings);
    if strings.len() == 0 {
        assert(fs =~= Seq::<Seq<char>>::empty());
        assert(flags_set(strings) =~= Set::<Seq<char>>::empty());
        assert(v.flags.union(flags_set(strings)) =~= v.flags);
    } else {
        let rest = strings.drop_first();
        let v1 = RuleVariantView { flags: v.flags.insert(fs[0]), ..v };
        law_flags_in_turn(v1, rest);
        assert(flag_views(rest) =~= fs.drop_first());
        assert(v1.flags.union(flags_set(rest)) =~= v.flags.union(flags_set(strings))) by {
            assert forall|x: Seq<char>| #[trigger] flags_set(strings).contains(x) implies x == fs[0]
                || flags_set(rest).contains(x) by {
                let j = choose|j: int| 0 <= j < fs.len() && fs[j] == x;
                if j > 0 {
                    assert(flag_views(rest)[j - 1] == x);
                }
            }
            assert forall|x: Seq<char>| #[trigger] flags_set(rest).contains(x) implies flags_set(strings).contains(x) by {
                let j = choose|j: int| 0 <= j < flag_views(rest).len() && flag_views(rest)[j] == x;
                assert(fs[j + 1] == x);
            }
            assert(fs[0] == fs[0]);
            assert(flags_set(strings).contains(fs[0]));
        }
    }
}

impl View for UntrustedRuleVariant {
    type V = RuleVariantView;

    closed spec fn view(&self) -> RuleVariantView {
        RuleVariantView {
            parameter_header: opt_view(self._parameter_header),
            header: self._header@,
            body: opt_view(self._body),
            flags: flags_set(self._flags@),
            catch_unknown_rule: opt_view(self._catch_unknown_rule),
        }
    }
}

impl View for RuleVariant {
    type V = RuleVariantView;

    closed spec fn view(&self) -> RuleVariantView {
        self.0@
    }
}

/// Whether the flag `f` is among `flags`.
fn has_flag(flags: &Vec<String>, f: &str) -> (r: bool)
    ensures
        r == flags_set(flags@).contains(f@),
{
    let mut i: usize = 0;
    while i < flags.len()
        invariant
            i <= flags@.len(),
            forall|j: int| 0 <= j < i ==> (#[trigger] flags@[j])@ != f@,
        decreases flags@.len() - i,
    {
        if str_eq(flags[i].as_str(), f) {
            proof {
                assert(flag_views(flags@)[i as int] == f@);
            }
            return true;
        }
        i = i + 1;
    }
    proof {
        if flags_set(flags@).contains(f@) {
            let j = choose|j: int| 0 <= j < flags@.len() && #[trigger] flag_views(flags@)[j] == f@;
            assert(flags@[j]@ == f@);
        }
    }
    false
}

/// Whether two optional invocation strings have the same model.
fn opt_same(a: &Option<InvocationString>, b: &Option<InvocationString>) -> (r: bool)
    ensures
        r == (opt_view(*a) == opt_view(*b)),
{
    match (a, b) {
        (Some(x), Some(y)) => x.same_as(y),
        (None, None) => true,
        _ => false,
    }
}

/// Whether two lists of flags hold the same flags, in any order and number.
fn flags_same(a: &Vec<String>, b: &Vec<String>) -> (r: bool)
    ensures
        r == (flags_set(a@) == flags_set(b@)),
{
    let mut i: usize = 0;
    while i < a.len()
        invariant
            i <= a@.len(),
            forall|j: int| 0 <= j < i ==> flags_set(b@).contains(#[trigger] a@[j]@),
        decreases a@.len() - i,
    {
        if !has_flag(b, a[i].as_str()) {
            proof {
                assert(flag_views(a@)[i as int] == a@[i as int]@);
                assert(flags_set(a@).contains(a@[i as int]@));
            }
            return false;
        }
        i = i + 1;
    }
    let mut k: usize = 0;
    while k < b.len()
        invariant
            k <= b@.len(),
            forall|j: int| 0 <= j < a@.len() ==> flags_set(b@).contains(#[trigger] a@[j]@),
            forall|j: int| 0 <= j < k ==> flags_set(a@).contains(#[trigger] b@[j]@),
        decreases b@.len() - k,
    {
        if !has_flag(a, b[k].as_str()) {
            proof {
                assert(flag_views(b@)[k as int] == b@[k as int]@);
                assert(flags_set(b@).contains(b@[k as int]@));
            }
            return false;
        }
        k = k + 1;
    }
    proof {
        assert forall|x: Seq<char>| flags_set(a@).contains(x) implies flags_set(b@).contains(x) by {
            let j = choose|j: int| 0 <= j < flag_views(a@).len() && flag_views(a@)[j] == x;
            assert(a@[j]@ == x);
        }
        assert forall|x: Seq<char>| flags_set(b@).contains(x) implies flags_set(a@).contains(x) by {
            let j = choose|j: int| 0 <= j < flag_views(b@).len() && flag_views(b@)[j] == x;
            assert(b@[j]@ == x);
        }
        assert(flags_set(a@) =~= flags_set(b@));
    }
    true
}

/// Two variants are equal where their models are: the same parts, and the
/// same flags in any order.
impl PartialEq for UntrustedRuleVariant {
    fn eq(&self, other: &UntrustedRuleVariant) -> (r: bool) {
        let same = opt_same(&self._parameter_header, &other._parameter_header)
            && self._header.same_as(&other._header)
            && opt_same(&self._body, &other._body)
            && flags_same(&self._flags, &other._flags)
            && opt_same(&self._catch_unknown_rule, &other._catch_unknown_rule);
        proof {
            if self@ == other@ {
                assert(self@.flags == other@.flags);
            }
        }
        same
    }
}

impl vstd::std_specs::cmp::PartialEqSpecImpl for UntrustedRuleVariant {
    open spec fn obeys_eq_spec() -> bool {
        true
    }

    open spec fn eq_spec(&self, other: &UntrustedRuleVariant) -> bool {
        self@ == other@
    }
}

impl UntrustedRuleVariant {
    pub fn body(self, invocation_string: InvocationString) -> (r: UntrustedRuleVariant)
        ensures
            r@ == (RuleVariantView { body: Some(invocation_string@), ..self@ }),
    {
        let mut s = self;
        s._body = Some(invocation_string);
        s
    }

    pub fn body_option(self, invocation_string_option: Option<InvocationString>) -> (r: UntrustedRuleVariant)
        ensures
            r@ == (RuleVariantView { body: opt_view(invocation_string_option), ..self@ }),
    {
        let mut s = self;
        s._body = invocation_string_option;
        s
    }

    pub fn parameter_header(self, invocation_string: InvocationString) -> (r: UntrustedRuleVariant)
        ensures
            r@ == (RuleVariantView { parameter_header: Some(invocation_string@), ..self@ }),
    {
        let mut s = self;
        s._parameter_header = Some(invocation_string);
        s
    }

    pub fn parameter_header_option(self, invocation_string_option: Option<InvocationString>) -> (r: UntrustedRuleVariant)
        ensures
            r@ == (RuleVariantView { parameter_header: opt_view(invocation_string_option), ..self@ }),
    {
        let mut s = self;
        s._parameter_header = invocation_string_option;
        s
    }

    /// Adds the flag `string`.
    pub fn flag(self, string: String) -> (r: UntrustedRuleVariant)
        ensures
            r@ == (RuleVariantView { flags: self@.flags.insert(string@), ..self@ }),
    {
        let mut s = self;
        if !has_flag(&s._flags, string.as_str()) {
            let ghost old_flags = s._flags@;
            let ghost sv = string@;
            s._flags.push(string);
            proof {
                assert(flag_views(s._flags@) =~= flag_views(old_flags).push(sv));
                flag_views(old_flags).lemma_push_to_set_commute(sv);
                assert(flags_set(s._flags@) =~= flags_set(old_flags).insert(sv));
            }
        } else {
            proof {
                assert(flags_set(s._flags@) =~= flags_set(s._flags@).insert(string@));
            }
        }
        s
    }

    /// Adds all the flags `strings`.
    pub fn flags(self, strings: Vec<String>) -> (r: UntrustedRuleVariant)
        ensures
            r@ == (RuleVariantView { flags: self@.flags.union(flags_set(strings@)), ..self@ }),
    {
        let mut s = self;
        let mut strings = strings;
        let ghost all = strings@;
        let ghost start = s@;
        let mut added: Vec<String> = Vec::new();
        proof {
            assert(flag_views(added@) =~= Seq::empty());
            assert(flags_set(added@) =~= Set::empty());
            assert(start.flags.union(flags_set(added@)) =~= start.flags);
        }
        while strings.len() > 0
            invariant
                added@ + strings@ == all,
                s@ == (RuleVariantView { flags: start.flags.union(flags_set(added@)), ..start }),
            decreases strings@.len(),
        {
            let f = strings.remove(0);
            let ghost fv = f@;
            let ghost old_added = added@;
            proof {
                assert(all == added@.push(f) + strings@) by {
                    assert(added@.push(f) + strings@ =~= old_added + seq![f] + strings@);
                }
            }
            let f2 = f.clone();
            s = s.flag(f);
            added.push(f2);
            proof {
                assert(flag_views(added@) =~= flag_views(old_added).push(fv));
                flag_views(old_added).lemma_push_to_set_commute(fv);
                assert(flags_set(added@) =~= flags_set(old_added).insert(fv));
                assert(start.flags.union(flags_set(added@)) =~= start.flags.union(flags_set(old_added)).insert(fv));
            }
        }
        proof {
            assert(added@ =~= all);
        }
        s
    }

    pub fn catch_unknown_rule(self, invocation_string: InvocationString) -> (r: UntrustedRuleVariant)
        ensures
            r@ == (RuleVariantView { catch_unknown_rule: Some(invocation_string@), ..self@ }),
    {
        let mut s = self;
        s._catch_unknown_rule = Some(invocation_string);
        s
    }

    pub fn catch_unknown_rule_option(self, invocation_string_option: Option<InvocationString>) -> (r: UntrustedRuleVariant)
        ensures
            r@ == (RuleVariantView { catch_unknown_rule: opt_view(invocation_string_option), ..self@ }),
    {
        let mut s = self;
        s._catch_unknown_rule = invocation_string_option;
        s
    }

    /// The text form of the variant (see `variant_display`).
    pub fn display_text(&self) -> (r: String)
        ensures
            r@ == variant_display(self@),
    {
        let mut out = String::new();
        match &self._parameter_header {
            Some(p) => {
                out.append("(");
                let d = p.to_display_string();
                out.append(d.as_str());
                out.append(") ");
            },
            None => {},
        }
        out.append("{");
        let h = self._header.to_display_string();
        out.append(h.as_str());
        out.append("}");
        match &self._body {
            Some(b) => {
                out.append(" -> {");
                let d = b.to_display_string();
                out.append(d.as_str());
                out.append("}");
            },
            None => {},
        }
        proof {
            assert(out@ =~= variant_display(self@));
        }
        out
    }

    /// Checks the flags: `once` is only allowed on unnamed rules, `debug` not
    /// at all (see `verify_error`).
    pub fn verify(self, rule_name: &str) -> (r: MatchResult<RuleVariant>)
        ensures
            match r {
                Ok(v) => v@ == self@ && !(self@.flags.contains("once"@) && rule_name@.len() > 0)
                    && !self@.flags.contains("debug"@),
                Err(e) => ((self@.flags.contains("once"@) && rule_name@.len() > 0) || self@.flags.contains("debug"@))
                    && e@ == verify_error(rule_name@, self@),
            },
    {
        if has_flag(&self._flags, "once") && !rule_name.is_empty() {
            Err(MatchError::rule_variant_verification_failure(
                rule_name,
                &self,
                String::from_str("Can only use flag (once) on unnamed rules"),
            ))
        } else if has_flag(&self._flags, "debug") {
            Err(MatchError::rule_variant_verification_failure(
                rule_name,
                &self,
                String::from_str("Flag 'debug' is deprecated."),
            ))
        } else {
            Ok(RuleVariant(self))
        }
    }
}

impl RuleVariant {
    /// A variant with the given header, no parameter header, body, flags or catch body.
    pub fn new(header: InvocationString) -> (r: UntrustedRuleVariant)
        ensures
            r@ == (RuleVariantView {
                parameter_header: None,
                header: header@,
                body: None,
                flags: Set::empty(),
                catch_unknown_rule: None,
            }),
    {
        let r = UntrustedRuleVariant {
            _parameter_header: None,
            _header: header,
            _body: None,
            _flags: Vec::new(),
            _catch_unknown_rule: None,
        };
        proof {
            assert(flags_set(r._flags@) =~= Set::empty());
        }
        r
    }

    /// The variant with an empty header and nothing else.
    pub fn empty() -> (r: RuleVariant)
        ensures
            r@ == (RuleVariantView {
                parameter_header: None,
                header: InvocationStringView::empty_view(),
                body: None,
                flags: Set::empty(),
                catch_unknown_rule: None,
            }),
    {
        let v = Self::new(InvocationString::empty());
        match v.verify("<INVALID>") {
            Ok(r) => r,
            Err(_) => {
                proof {
                    assert(false);
                }
                RuleVariant(Self::new(InvocationString::empty()))
            },
        }
    }

    /// Flag `not`: the header must not match.
    pub fn header_negated(&self) -> (r: bool)
        ensures
            r == self@.flags.contains("not"@),
    {
        has_flag(&self.0._flags, "not")
    }

    pub fn shallow_call(&self) -> (r: bool)
        ensures
            r == !self@.flags.contains("syntax"@),
    {
        !self.deep_call()
    }

    /// Flag `syntax`: the variant stays defined after it was applied.
    pub fn deep_call(&self) -> (r: bool)
        ensures
            r == self@.flags.contains("syntax"@),
    {
        has_flag(&self.0._flags, "syntax")
    }

    /// Flag `clear` or `undefine`: the definition removes the rule.
    pub fn is_undefine(&self) -> (r: bool)
        ensures
            r == (self@.flags.contains("clear"@) || self@.flags.contains("undefine"@)),
    {
        has_flag(&self.0._flags, "clear") || has_flag(&self.0._flags, "undefine")
    }

    /// Flag `any`: the variant matches any one character.
    pub fn is_any(&self) -> (r: bool)
        ensures
            r == self@.flags.contains("any"@),
    {
        has_flag(&self.0._flags, "any")
    }

    pub fn body(&self) -> (r: Option<&InvocationString>)
        ensures
            match r {
                Some(b) => self@.body == Some(b@),
                None => self@.body is None,
            },
    {
        self.0._body.as_ref()
    }

    pub fn header(&self) -> (r: &InvocationString)
        ensures
            r@ == self@.header,
    {
        &self.0._header
    }

    pub fn parameter_header(&self) -> (r: Option<&InvocationString>)
        ensures
            match r {
                Some(b) => self@.parameter_header == Some(b@),
                None => self@.parameter_header is None,
            },
    {
        self.0._parameter_header.as_ref()
    }

    /// The flags, as a list without repetitions.
    pub fn flags(&self) -> (r: &Vec<String>)
        ensures
            flags_set(r@) == self@.flags,
    {
        &self.0._flags
    }

    pub fn unknown_rule_catch_body(&self) -> (r: Option<&InvocationString>)
        ensures
            match r {
                Some(b) => self@.catch_unknown_rule == Some(b@),
                None => self@.catch_unknown_rule is None,
            },
    {
        self.0._catch_unknown_rule.as_ref()
    }

    /// The text form of the variant (see `variant_display`).
    pub fn display_text(&self) -> (r: String)
        ensures
            r@ == variant_display(self@),
    {
        self.0.display_text()
    }
}

} // verus!
