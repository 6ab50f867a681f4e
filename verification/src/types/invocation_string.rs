//! Strings of text interleaved with invocations: the headers, parameters and
//! bodies of rule variants.
use vstd::prelude::*;
use vstd::string::*;
use crate::types::invocation::Invocation;
use vstd::std_specs::cmp::PartialEqSpec;
use crate::text::{push_char, spec_is_whitespace, char_is_whitespace, split_first_char, str_eq};
use crate::error::{MatchError, MatchResult, unknown_variable_msg, ErrorView, plain_error};
use crate::vars::Vars;

verus! {

broadcast use vstd::string::group_string_axioms;

/// The model of an `Invocation`.
pub enum InvocationView {
    Rule(Seq<char>, Seq<char>, InvocationStringView),
    Var(Seq<char>),
}

/// The model of an `InvocationString`: a sequence of text parts, each
/// followed by the invocations that stand right after it, and a final text.
pub struct InvocationStringView {
    pub segments: Seq<(Seq<char>, Seq<InvocationView>)>,
    pub tail: Seq<char>,
}

impl InvocationStringView {
    pub open spec fn empty_view() -> InvocationStringView {
        InvocationStringView { segments: Seq::empty(), tail: Seq::empty() }
    }

    pub open spec fn is_empty_view(self) -> bool {
        self.segments.len() == 0 && self.tail.len() == 0
    }

    /// All parts in order: the segments, then the final text with no invocation.
    pub open spec fn parts(self) -> Seq<(Seq<char>, Seq<InvocationView>)> {
        self.segments.push((self.tail, Seq::empty()))
    }

    /// Appends text at the end.
    pub open spec fn add_str(self, s: Seq<char>) -> InvocationStringView {
        InvocationStringView { segments: self.segments, tail: self.tail + s }
    }

    /// Appends an invocation at the end.
    pub open spec fn add_invoc(self, i: InvocationView) -> InvocationStringView {
        if self.tail.len() == 0 && self.segments.len() > 0 {
            let last = self.segments.last();
            InvocationStringView {
                segments: self.segments.drop_last().push((last.0, last.1.push(i))),
                tail: self.tail,
            }
        } else {
            InvocationStringView { segments: self.segments.push((self.tail, seq![i])), tail: Seq::empty() }
        }
    }

    /// Appends the invocations `invs` one after the other.
    pub open spec fn add_invocs(self, invs: Seq<InvocationView>) -> InvocationStringView
        decreases invs.len(),
    {
        if invs.len() == 0 {
            self
        } else {
            self.add_invocs(invs.drop_last()).add_invoc(invs.last())
        }
    }

    /// Appends the parts `parts` one after the other.
    pub open spec fn add_parts(self, parts: Seq<(Seq<char>, Seq<InvocationView>)>) -> InvocationStringView
        decreases parts.len(),
    {
        if parts.len() == 0 {
            self
        } else {
            self.add_parts(parts.drop_last()).add_str(parts.last().0).add_invocs(parts.last().1)
        }
    }

    /// The last invocation, where the string ends in one.
    pub open spec fn end_invocation_view(self) -> Option<InvocationView> {
        if self.tail.len() == 0 && self.segments.len() > 0 && self.segments.last().1.len() > 0 {
            Some(self.segments.last().1.last())
        } else {
            None
        }
    }

    /// Whether every invocation is a variable invocation.
    pub open spec fn only_var_invocs(self) -> bool {
        forall|i: int, j: int|
            0 <= i < self.segments.len() && 0 <= j < self.segments[i].1.len()
                ==> #[trigger] self.segments[i].1[j] is Var
    }
}

/// `v` without its last invocation, where it ends in one.
pub open spec fn without_end_invocation(v: InvocationStringView) -> InvocationStringView {
    if v.tail.len() == 0 && v.segments.len() > 0 && v.segments.last().1.len() > 0 {
        InvocationStringView {
            segments: v.segments.drop_last().push((v.segments.last().0, v.segments.last().1.drop_last())),
            tail: v.tail,
        }
    } else {
        v
    }
}

/// `v` without its last invocation where that invokes the rule `tail_name`.
pub open spec fn without_tail_view(v: InvocationStringView, tail_name: Seq<char>) -> InvocationStringView {
    match v.end_invocation_view() {
        Some(InvocationView::Rule(_, rule, _)) => if rule == tail_name {
            without_end_invocation(v)
        } else {
            v
        },
        _ => v,
    }
}

/// Rule invocations as `:var:rule`, with `(param)` behind them where the
/// parameter is not empty; variable invocations as `:var`.
pub open spec fn invocation_display(v: InvocationView) -> Seq<char>
    decreases v,
{
    match v {
        InvocationView::Rule(var, rule, p) => {
            if p.is_empty_view() {
                ":"@ + var + ":"@ + rule
            } else {
                ":"@ + var + ":"@ + rule + "("@ + istr_display_parts(p.segments)
                    + part_text_display(p.tail) + ")"@
            }
        },
        InvocationView::Var(var) => ":"@ + var,
    }
}

/// The display of an invocation string: see `istr_display_parts`.
pub open spec fn istr_display(p: InvocationStringView) -> Seq<char> {
    istr_display_parts(p.segments) + part_text_display(p.tail)
}

/// Each text part followed by a space (in `{'`..`'}` where it holds white
/// space), each invocation followed by a space.
pub open spec fn istr_display_parts(parts: Seq<(Seq<char>, Seq<InvocationView>)>) -> Seq<char>
    decreases parts,
{
    if parts.len() == 0 {
        Seq::empty()
    } else {
        istr_display_parts(parts.drop_last()) + part_text_display(parts.last().0)
            + invocations_display(parts.last().1)
    }
}

pub open spec fn part_text_display(t: Seq<char>) -> Seq<char> {
    if exists|i: int| 0 <= i < t.len() && spec_is_whitespace(#[trigger] t[i]) {
        "{'"@ + t + "'} "@
    } else {
        t + " "@
    }
}

pub open spec fn invocations_display(invs: Seq<InvocationView>) -> Seq<char>
    decreases invs,
{
    if invs.len() == 0 {
        Seq::empty()
    } else {
        invocations_display(invs.drop_last()) + invocation_display(invs.last()) + " "@
    }
}

/// Text interleaved with invocations.
#[derive(Eq, Debug)]
pub struct InvocationString {
    segments: Vec<(String, Vec<Invocation>)>,
    tail: String,
}

/// Builds an `InvocationString` piece by piece.
#[derive(PartialEq, Eq, Debug)]
pub struct InvocationStringBuilder(InvocationString);

/// An invocation string meant to hold variable invocations only (see
/// `InvocationString::assume_only_var_invocs` and
/// `InvocationString::ensure_only_var_invocs`).
#[derive(PartialEq, Eq, Debug)]
pub struct VarInvocationString(InvocationString);

pub closed spec fn invocation_view(i: Invocation) -> InvocationView
    decreases i,
{
    match i {
        Invocation::RuleInvocation(v, r, p) => InvocationView::Rule(v@, r@, istr_view(p)),
        Invocation::VarInvocation(v) => InvocationView::Var(v@),
    }
}

pub closed spec fn invocations_view(s: Seq<Invocation>) -> Seq<InvocationView>
    decreases s,
{
    if s.len() == 0 {
        Seq::empty()
    } else {
        invocations_view(s.drop_last()).push(invocation_view(s.last()))
    }
}

closed spec fn segments_view(s: Seq<(String, Vec<Invocation>)>) -> Seq<(Seq<char>, Seq<InvocationView>)>
    decreases s,
{
    if s.len() == 0 {
        Seq::empty()
    } else {
        segments_view(s.drop_last()).push((s.last().0@, invocations_view(s.last().1@)))
    }
}

closed spec fn istr_view(s: InvocationString) -> InvocationStringView
    decreases s,
{
    InvocationStringView { segments: segments_view(s.segments@), tail: s.tail@ }
}

impl View for Invocation {
    type V = InvocationView;

    closed spec fn view(&self) -> InvocationView {
        invocation_view(*self)
    }
}

impl View for InvocationString {
    type V = InvocationStringView;

    closed spec fn view(&self) -> InvocationStringView {
        istr_view(*self)
    }
}

impl View for InvocationStringBuilder {
    type V = InvocationStringView;

    closed spec fn view(&self) -> InvocationStringView {
        istr_view(self.0)
    }
}

impl View for VarInvocationString {
    type V = InvocationStringView;

    closed spec fn view(&self) -> InvocationStringView {
        istr_view(self.0)
    }
}

/// How an invocation's model is made of its parts.
pub broadcast proof fn lemma_invocation_view(i: Invocation)
    ensures
        #[trigger] i@ == (match i {
            Invocation::RuleInvocation(v, r, p) => InvocationView::Rule(v@, r@, p@),
            Invocation::VarInvocation(v) => InvocationView::Var(v@),
        }),
{
}

proof fn lemma_invocations_view(s: Seq<Invocation>)
    ensures
        invocations_view(s).len() == s.len(),
        forall|j: int| 0 <= j < s.len() ==> #[trigger] invocations_view(s)[j] == s[j]@,
    decreases s.len(),
{
    if s.len() > 0 {
        lemma_invocations_view(s.drop_last());
        assert forall|j: int| 0 <= j < s.len() implies #[trigger] invocations_view(s)[j] == s[j]@ by {
            if j < s.len() - 1 {
                assert(s.drop_last()[j] == s[j]);
            }
        }
    }
}

proof fn lemma_segments_view(s: Seq<(String, Vec<Invocation>)>)
    ensures
        segments_view(s).len() == s.len(),
        forall|j: int| 0 <= j < s.len() ==> #[trigger] segments_view(s)[j]
            == (s[j].0@, invocations_view(s[j].1@)),
    decreases s.len(),
{
    if s.len() > 0 {
        lemma_segments_view(s.drop_last());
        assert forall|j: int| 0 <= j < s.len() implies #[trigger] segments_view(s)[j]
            == (s[j].0@, invocations_view(s[j].1@)) by {
            if j < s.len() - 1 {
                assert(s.drop_last()[j] == s[j]);
            }
        }
    }
}

impl Invocation {
    /// A copy of the invocation.
    pub fn duplicate(&self) -> (r: Invocation)
        ensures
            r@ == self@,
        decreases self, 1nat,
    {
        proof {
            lemma_invocation_view(*self);
        }
        let r = match self {
            Invocation::RuleInvocation(var, rule, param) => {
                proof {
                    assert(decreases_to!(*self => *param));
                }
                Invocation::RuleInvocation(var.clone(), rule.clone(), param.duplicate())
            },
            Invocation::VarInvocation(var) => Invocation::VarInvocation(var.clone()),
        };
        proof {
            lemma_invocation_view(r);
        }
        r
    }
}

impl InvocationString {
    /// A copy of the string.
    pub fn duplicate(&self) -> (r: InvocationString)
        ensures
            r@ == self@,
        decreases self, 0nat,
    {
        let mut segments: Vec<(String, Vec<Invocation>)> = Vec::new();
        let mut i: usize = 0;
        while i < self.segments.len()
            invariant
                i <= self.segments@.len(),
                segments@.len() == i,
                forall|j: int| 0 <= j < i ==> (#[trigger] segments@[j]).0@ == self.segments@[j].0@
                    && segments@[j].1@.map_values(|x: Invocation| x@) == self.segments@[j].1@.map_values(|x: Invocation| x@),
            decreases self.segments@.len() - i,
        {
            let seg = &self.segments[i];
            let mut invs: Vec<Invocation> = Vec::new();
            let mut k: usize = 0;
            while k < seg.1.len()
                invariant
                    k <= seg.1@.len(),
                    invs@.len() == k,
                    i < self.segments@.len(),
                    *seg == self.segments@[i as int],
                    forall|j: int| 0 <= j < k ==> (#[trigger] invs@[j])@ == seg.1@[j]@,
                decreases seg.1@.len() - k,
            {
                proof {
                    assert(decreases_to!(*self => self.segments));
                    assert(decreases_to!(self.segments => self.segments@));
                    assert(decreases_to!(self.segments@ => self.segments@[i as int]));
                    assert(decreases_to!(self.segments@[i as int] => self.segments@[i as int].1));
                    assert(decreases_to!(self.segments@[i as int].1 => self.segments@[i as int].1@));
                    assert(decreases_to!(self.segments@[i as int].1@ => self.segments@[i as int].1@[k as int]));
                }
                invs.push(seg.1[k].duplicate());
                k = k + 1;
            }
            proof {
                assert(invs@.map_values(|x: Invocation| x@) =~= seg.1@.map_values(|x: Invocation| x@));
            }
            segments.push((seg.0.clone(), invs));
            i = i + 1;
        }
        let r = InvocationString::from_segments(segments, self.tail.clone());
        proof {
            lemma_segments_view(self.segments@);
            assert forall|j: int| 0 <= j < self.segments@.len() implies #[trigger] r@.segments[j] == self@.segments[j] by {
                lemma_invocations_view(self.segments@[j].1@);
                assert(invocations_view(self.segments@[j].1@) =~= self.segments@[j].1@.map_values(|x: Invocation| x@));
            }
            assert(r@.segments =~= self@.segments);
        }
        r
    }
}

impl Invocation {
    /// Whether the two invocations have the same model.
    pub fn same_as(&self, other: &Invocation) -> (r: bool)
        ensures
            r == (self@ == other@),
        decreases self, 1nat,
    {
        proof {
            lemma_invocation_view(*self);
            lemma_invocation_view(*other);
        }
        match (self, other) {
            (Invocation::RuleInvocation(v1, r1, p1), Invocation::RuleInvocation(v2, r2, p2)) => {
                proof {
                    assert(decreases_to!(*self => *p1));
                }
                str_eq(v1.as_str(), v2.as_str()) && str_eq(r1.as_str(), r2.as_str()) && p1.same_as(p2)
            },
            (Invocation::VarInvocation(v1), Invocation::VarInvocation(v2)) => str_eq(v1.as_str(), v2.as_str()),
            _ => false,
        }
    }
}

impl InvocationString {
    /// Whether the two strings have the same model.
    pub fn same_as(&self, other: &InvocationString) -> (r: bool)
        ensures
            r == (self@ == other@),
        decreases self, 0nat,
    {
        proof {
            lemma_segments_view(self.segments@);
            lemma_segments_view(other.segments@);
        }
        if !str_eq(self.tail.as_str(), other.tail.as_str()) || self.segments.len() != other.segments.len() {
            proof {
                if self@ == other@ {
                    assert(segments_view(self.segments@).len() == segments_view(other.segments@).len());
                }
            }
            return false;
        }
        let mut i: usize = 0;
        while i < self.segments.len()
            invariant
                i <= self.segments@.len(),
                self.segments@.len() == other.segments@.len(),
                segments_view(self.segments@).len() == self.segments@.len(),
                segments_view(other.segments@).len() == other.segments@.len(),
                forall|j: int| 0 <= j < self.segments@.len() ==> #[trigger] segments_view(self.segments@)[j]
                    == (self.segments@[j].0@, invocations_view(self.segments@[j].1@)),
                forall|j: int| 0 <= j < other.segments@.len() ==> #[trigger] segments_view(other.segments@)[j]
                    == (other.segments@[j].0@, invocations_view(other.segments@[j].1@)),
                forall|j: int| 0 <= j < i ==> #[trigger] segments_view(self.segments@)[j] == segments_view(other.segments@)[j],
            decreases self.segments@.len() - i,
        {
            let seg = &self.segments[i];
            let oseg = &other.segments[i];
            proof {
                lemma_invocations_view(seg.1@);
                lemma_invocations_view(oseg.1@);
                assert(segments_view(self.segments@)[i as int] == (seg.0@, invocations_view(seg.1@)));
                assert(segments_view(other.segments@)[i as int] == (oseg.0@, invocations_view(oseg.1@)));
            }
            if !str_eq(seg.0.as_str(), oseg.0.as_str()) || seg.1.len() != oseg.1.len() {
                proof {
                    assert(segments_view(self.segments@)[i as int] == (seg.0@, invocations_view(seg.1@)));
                    assert(segments_view(other.segments@)[i as int] == (oseg.0@, invocations_view(oseg.1@)));
                    if self@ == other@ {
                        assert(segments_view(self.segments@)[i as int] == segments_view(other.segments@)[i as int]);
                    }
                }
                return false;
            }
            let mut k: usize = 0;
            while k < seg.1.len()
                invariant
                    k <= seg.1@.len(),
                    seg.1@.len() == oseg.1@.len(),
                    i < self.segments@.len(),
                    i < other.segments@.len(),
                    *seg == self.segments@[i as int],
                    *oseg == other.segments@[i as int],
                    segments_view(self.segments@)[i as int] == (seg.0@, invocations_view(seg.1@)),
                    segments_view(other.segments@)[i as int] == (oseg.0@, invocations_view(oseg.1@)),
                    invocations_view(seg.1@).len() == seg.1@.len(),
                    invocations_view(oseg.1@).len() == oseg.1@.len(),
                    forall|j: int| 0 <= j < seg.1@.len() ==> #[trigger] invocations_view(seg.1@)[j] == seg.1@[j]@,
                    forall|j: int| 0 <= j < oseg.1@.len() ==> #[trigger] invocations_view(oseg.1@)[j] == oseg.1@[j]@,
                    forall|j: int| 0 <= j < k ==> (#[trigger] seg.1@[j])@ == oseg.1@[j]@,
                decreases seg.1@.len() - k,
            {
                proof {
                    assert(decreases_to!(*self => self.segments));
                    assert(decreases_to!(self.segments => self.segments@));
                    assert(decreases_to!(self.segments@ => self.segments@[i as int]));
                    assert(decreases_to!(self.segments@[i as int] => self.segments@[i as int].1));
                    assert(decreases_to!(self.segments@[i as int].1 => self.segments@[i as int].1@));
                    assert(decreases_to!(self.segments@[i as int].1@ => self.segments@[i as int].1@[k as int]));
                }
                if !seg.1[k].same_as(&oseg.1[k]) {
                    proof {
                        if self@ == other@ {
                            assert(segments_view(self.segments@)[i as int] == segments_view(other.segments@)[i as int]);
                            assert(invocations_view(seg.1@)[k as int] == invocations_view(oseg.1@)[k as int]);
                        }
                    }
                    return false;
                }
                k = k + 1;
            }
            proof {
                assert(invocations_view(seg.1@) =~= invocations_view(oseg.1@));
            }
            i = i + 1;
        }
        proof {
            assert(segments_view(self.segments@) =~= segments_view(other.segments@));
        }
        true
    }
}

/// Two invocation strings are equal where their models are.
impl PartialEq for InvocationString {
    fn eq(&self, other: &InvocationString) -> (r: bool) {
        self.same_as(other)
    }
}

impl vstd::std_specs::cmp::PartialEqSpecImpl for InvocationString {
    open spec fn obeys_eq_spec() -> bool {
        true
    }

    open spec fn eq_spec(&self, other: &InvocationString) -> bool {
        self@ == other@
    }
}

/// Equality of invocation strings is symmetric.
pub proof fn law_istr_eq_symmetric(a: InvocationString, b: InvocationString)
    ensures
        a.eq_spec(&b) == b.eq_spec(&a),
{
}

impl InvocationString {
    pub fn empty() -> (r: InvocationString)
        ensures
            r@ == InvocationStringView::empty_view(),
    {
        let r = InvocationString { segments: Vec::new(), tail: String::new() };
        proof {
            assert(segments_view(r.segments@) =~= Seq::empty());
        }
        r
    }

    pub fn new() -> (r: InvocationStringBuilder)
        ensures
            r@ == InvocationStringView::empty_view(),
    {
        InvocationStringBuilder(InvocationString::empty())
    }

    /// Plain text, without invocations.
    pub fn literally(text: &str) -> (r: InvocationString)
        ensures
            r@ == InvocationStringView::empty_view().add_str(text@),
    {
        let r = InvocationString { segments: Vec::new(), tail: text.to_owned() };
        proof {
            assert(segments_view(r.segments@) =~= Seq::empty());
            assert(r@ =~= InvocationStringView::empty_view().add_str(text@));
        }
        r
    }

    pub fn has_invocations(&self) -> (r: bool)
        ensures
            r == (self@.segments.len() > 0),
    {
        proof {
            lemma_segments_view(self.segments@);
        }
        self.segments.len() != 0
    }

    /// No text and no invocation.
    pub fn is_empty(&self) -> (r: bool)
        ensures
            r == self@.is_empty_view(),
    {
        proof {
            lemma_segments_view(self.segments@);
        }
        self.segments.len() == 0 && self.tail.as_str().is_empty()
    }

    /// The number of segments: text parts that invocations follow.
    pub fn segment_count(&self) -> (r: usize)
        ensures
            r == self@.segments.len(),
    {
        proof {
            lemma_segments_view(self.segments@);
        }
        self.segments.len()
    }

    /// The `i`-th segment: its text and the invocations that follow it.
    pub fn segment(&self, i: usize) -> (r: (&str, &[Invocation]))
        requires
            i < self@.segments.len(),
        ensures
            r.0@ == self@.segments[i as int].0,
            r.1@.len() == self@.segments[i as int].1.len(),
            forall|j: int| 0 <= j < r.1@.len() ==> #[trigger] r.1@[j]@ == self@.segments[i as int].1[j],
    {
        proof {
            lemma_segments_view(self.segments@);
            lemma_invocations_view(self.segments@[i as int].1@);
        }
        let seg = &self.segments[i];
        (seg.0.as_str(), seg.1.as_slice())
    }

    /// The invocation string with the given segments and final text.
    pub fn from_segments(segments: Vec<(String, Vec<Invocation>)>, tail: String) -> (r: InvocationString)
        ensures
            r@.segments.len() == segments@.len(),
            forall|j: int| 0 <= j < segments@.len() ==> #[trigger] r@.segments[j]
                == (segments@[j].0@, segments@[j].1@.map_values(|i: Invocation| i@)),
            r@.tail == tail@,
    {
        let r = InvocationString { segments: segments, tail: tail };
        proof {
            lemma_segments_view(r.segments@);
            assert forall|j: int| 0 <= j < r.segments@.len() implies #[trigger] r@.segments[j]
                == (r.segments@[j].0@, r.segments@[j].1@.map_values(|i: Invocation| i@)) by {
                lemma_invocations_view(r.segments@[j].1@);
                assert(invocations_view(r.segments@[j].1@) =~= r.segments@[j].1@.map_values(|i: Invocation| i@));
            }
        }
        r
    }

    /// The text and invocation segments in order, the final text last (with
    /// no invocations); some may be empty.
    pub fn iter(&self) -> (r: Vec<(&str, &[Invocation])>)
        ensures
            r@.len() == self@.parts().len(),
            forall|j: int| 0 <= j < r@.len() ==> (#[trigger] r@[j]).0@ == self@.parts()[j].0
                && r@[j].1@.map_values(|i: Invocation| i@) == self@.parts()[j].1,
    {
        let mut r: Vec<(&str, &[Invocation])> = Vec::new();
        let n = self.segment_count();
        let mut i: usize = 0;
        while i < n
            invariant
                n == self@.segments.len(),
                i <= n,
                r@.len() == i,
                forall|j: int| 0 <= j < i ==> (#[trigger] r@[j]).0@ == self@.parts()[j].0
                    && r@[j].1@.map_values(|i: Invocation| i@) == self@.parts()[j].1,
            decreases n - i,
        {
            let (text, invs) = self.segment(i);
            proof {
                assert(invs@.map_values(|i: Invocation| i@) =~= self@.parts()[i as int].1);
            }
            r.push((text, invs));
            i = i + 1;
        }
        let empty: &[Invocation] = &[];
        proof {
            assert(empty@.map_values(|i: Invocation| i@) =~= Seq::<InvocationView>::empty());
        }
        r.push((self.tail_text(), empty));
        r
    }

    /// The text after the last invocation.
    pub fn tail_text(&self) -> (r: &str)
        ensures
            r@ == self@.tail,
    {
        self.tail.as_str()
    }
}


proof fn lemma_invocations_view_push(s: Seq<Invocation>, x: Invocation)
    ensures
        invocations_view(s.push(x)) == invocations_view(s).push(x@),
{
    assert(s.push(x).drop_last() =~= s);
}

proof fn lemma_segments_view_push(s: Seq<(String, Vec<Invocation>)>, x: (String, Vec<Invocation>))
    ensures
        segments_view(s.push(x)) == segments_view(s).push((x.0@, invocations_view(x.1@))),
{
    assert(s.push(x).drop_last() =~= s);
}

proof fn lemma_segments_view_drop_last(s: Seq<(String, Vec<Invocation>)>)
    requires
        s.len() > 0,
    ensures
        segments_view(s.drop_last()) == segments_view(s).drop_last(),
        segments_view(s).last() == (s.last().0@, invocations_view(s.last().1@)),
{
    assert(segments_view(s).drop_last() =~= segments_view(s.drop_last()));
}

impl InvocationStringBuilder {
    pub fn add_char(&mut self, c: char)
        ensures
            final(self)@ == old(self)@.add_str(seq![c]),
    {
        push_char(&mut self.0.tail, c);
        proof {
            assert(self.0.tail@ =~= old(self).0.tail@ + seq![c]);
            assert(self@ =~= old(self)@.add_str(seq![c]));
        }
    }

    pub fn add_str(&mut self, s: &str)
        ensures
            final(self)@ == old(self)@.add_str(s@),
    {
        self.0.tail.append(s);
        proof {
            assert(self@ =~= old(self)@.add_str(s@));
        }
    }

    /// Adds an invocation at the end of the string built so far.
    pub fn add_invoc(&mut self, invoc: Invocation)
        ensures
            final(self)@ == old(self)@.add_invoc(invoc@),
    {
        let ghost iv = invoc@;
        if self.0.tail.as_str().is_empty() && self.0.segments.len() > 0 {
            let ghost old_segs = self.0.segments@;
            let last = self.0.segments.pop();
            match last {
                Some(last) => {
                    let (text, mut invs) = last;
                    let ghost old_invs = invs@;
                    invs.push(invoc);
                    proof {
                        lemma_invocations_view_push(old_invs, invoc);
                        lemma_segments_view_drop_last(old_segs);
                        lemma_segments_view_push(self.0.segments@, (text, invs));
                    }
                    self.0.segments.push((text, invs));
                    proof {
                        assert(self@ =~= old(self)@.add_invoc(iv));
                    }
                },
                None => {},
            }
        } else {
            let text = self.0.tail.clone();
            self.0.tail = String::new();
            let mut invs = Vec::new();
            invs.push(invoc);
            proof {
                lemma_invocations_view_push(Seq::empty(), invoc);
                assert(Seq::<Invocation>::empty().push(invoc) =~= invs@);
                assert(invocations_view(Seq::empty()) =~= Seq::empty());
                lemma_segments_view_push(self.0.segments@, (text, invs));
            }
            self.0.segments.push((text, invs));
            proof {
                assert(self@ =~= old(self)@.add_invoc(iv));
            }
        }
    }

    pub fn seal(self) -> (r: InvocationString)
        ensures
            r@ == self@,
    {
        self.0
    }

    /// Adds the text and invocations of `invoc_str` at the end, in order.
    pub fn add_invoc_str(&mut self, invoc_str: &InvocationString)
        ensures
            final(self)@ == old(self)@.add_parts(invoc_str@.parts()),
    {
        let items = invoc_str.iter();
        let ghost parts = invoc_str@.parts();
        let mut i: usize = 0;
        while i < items.len()
            invariant
                i <= items@.len(),
                items@.len() == parts.len(),
                forall|j: int| 0 <= j < items@.len() ==> (#[trigger] items@[j]).0@ == parts[j].0
                    && items@[j].1@.map_values(|x: Invocation| x@) == parts[j].1,
                self@ == old(self)@.add_parts(parts.take(i as int)),
            decreases items@.len() - i,
        {
            let (text, invs) = items[i];
            self.add_str(text);
            let ghost base = self@;
            let ghost invs_v = parts[i as int].1;
            let mut k: usize = 0;
            while k < invs.len()
                invariant
                    k <= invs@.len(),
                    invs@.map_values(|x: Invocation| x@) == invs_v,
                    self@ == base.add_invocs(invs_v.take(k as int)),
                decreases invs@.len() - k,
            {
                let inv = invs[k].duplicate();
                self.add_invoc(inv);
                proof {
                    assert(invs_v.take(k + 1).drop_last() =~= invs_v.take(k as int));
                    assert(invs_v[k as int] == invs@[k as int]@);
                }
                k = k + 1;
            }
            proof {
                assert(invs_v.take(invs@.len() as int) =~= invs_v);
                assert(parts.take(i + 1).drop_last() =~= parts.take(i as int));
                assert(parts.take(i + 1).last() == parts[i as int]);
            }
            i = i + 1;
        }
        proof {
            assert(parts.take(items@.len() as int) =~= parts);
        }
    }
}


/// Why binding variables failed.
pub enum BindError {
    UnknownVariable(Seq<char>),
    TooManyAnonymous,
    NotAVariable,
}

/// The text bound so far and the number of anonymous values used so far.
pub struct BindState {
    pub out: Seq<char>,
    pub anon: nat,
}

/// Substitutes one invocation: a named variable by its value, an anonymous
/// one by the next anonymous value.
pub open spec fn bind_one(
    inv: InvocationView,
    named: Map<Seq<char>, Seq<char>>,
    indexed: Seq<Seq<char>>,
    st: BindState,
) -> Result<BindState, BindError> {
    match inv {
        InvocationView::Var(v) => {
            if v.len() > 0 {
                if named.contains_key(v) {
                    Ok(BindState { out: st.out + named[v], anon: st.anon })
                } else {
                    Err(BindError::UnknownVariable(v))
                }
            } else if st.anon < indexed.len() {
                Ok(BindState { out: st.out + indexed[st.anon as int], anon: st.anon + 1 })
            } else {
                Err(BindError::TooManyAnonymous)
            }
        },
        InvocationView::Rule(..) => Err(BindError::NotAVariable),
    }
}

pub open spec fn bind_invocs(
    invs: Seq<InvocationView>,
    named: Map<Seq<char>, Seq<char>>,
    indexed: Seq<Seq<char>>,
    st: BindState,
) -> Result<BindState, BindError>
    decreases invs.len(),
{
    if invs.len() == 0 {
        Ok(st)
    } else {
        match bind_invocs(invs.drop_last(), named, indexed, st) {
            Ok(s) => bind_one(invs.last(), named, indexed, s),
            Err(e) => Err(e),
        }
    }
}

pub open spec fn bind_segments(
    segs: Seq<(Seq<char>, Seq<InvocationView>)>,
    named: Map<Seq<char>, Seq<char>>,
    indexed: Seq<Seq<char>>,
) -> Result<BindState, BindError>
    decreases segs.len(),
{
    if segs.len() == 0 {
        Ok(BindState { out: Seq::empty(), anon: 0 })
    } else {
        match bind_segments(segs.drop_last(), named, indexed) {
            Ok(s) => bind_invocs(
                segs.last().1,
                named,
                indexed,
                BindState { out: s.out + segs.last().0, anon: s.anon },
            ),
            Err(e) => Err(e),
        }
    }
}

/// The text of `v` with each variable invocation replaced by its value:
/// named ones from `named`, anonymous ones from `indexed`, in order.
pub open spec fn bind_vars_spec(
    v: InvocationStringView,
    named: Map<Seq<char>, Seq<char>>,
    indexed: Seq<Seq<char>>,
) -> Result<Seq<char>, BindError> {
    match bind_segments(v.segments, named, indexed) {
        Ok(s) => Ok(s.out + v.tail),
        Err(e) => Err(e),
    }
}

/// Text without invocations binds to itself, whatever the bindings.
pub proof fn law_plain_text_binds_to_itself(t: Seq<char>, named: Map<Seq<char>, Seq<char>>, indexed: Seq<Seq<char>>)
    ensures
        bind_vars_spec(InvocationStringView::empty_view().add_str(t), named, indexed) == Ok::<Seq<char>, BindError>(t),
{
    assert(Seq::<char>::empty() + t =~= t);
}

/// The texts `texts` each followed by the value of the same index:
/// `texts[0] + values[0] + texts[1] + values[1] + ...`.
pub open spec fn texts_with_values(texts: Seq<Seq<char>>, values: Seq<Seq<char>>) -> Seq<char>
    decreases texts.len(),
{
    if texts.len() == 0 {
        Seq::empty()
    } else {
        texts_with_values(texts.drop_last(), values) + texts.last() + values[texts.len() - 1]
    }
}

/// Anonymous variables are bound in order: where each segment of a string
/// is a text followed by one anonymous variable, and there are enough
/// anonymous values, the `i`-th anonymous variable is replaced by the `i`-th
/// value, whatever the named values.
pub proof fn law_anonymous_in_order(
    segs: Seq<(Seq<char>, Seq<InvocationView>)>,
    tail: Seq<char>,
    named: Map<Seq<char>, Seq<char>>,
    indexed: Seq<Seq<char>>,
)
    requires
        forall|i: int| 0 <= i < segs.len() ==> (#[trigger] segs[i]).1 == seq![InvocationView::Var(Seq::empty())],
        segs.len() <= indexed.len(),
    ensures
        bind_vars_spec(InvocationStringView { segments: segs, tail: tail }, named, indexed)
            == Ok::<Seq<char>, BindError>(texts_with_values(segs.map_values(|p: (Seq<char>, Seq<InvocationView>)| p.0), indexed) + tail),
    decreases segs.len(),
{
    lemma_anonymous_segments(segs, named, indexed);
}

proof fn lemma_anonymous_segments(
    segs: Seq<(Seq<char>, Seq<InvocationView>)>,
    named: Map<Seq<char>, Seq<char>>,
    indexed: Seq<Seq<char>>,
)
    requires
        forall|i: int| 0 <= i < segs.len() ==> (#[trigger] segs[i]).1 == seq![InvocationView::Var(Seq::empty())],
        segs.len() <= indexed.len(),
    ensures
        bind_segments(segs, named, indexed) == Ok::<BindState, BindError>(BindState {
            out: texts_with_values(segs.map_values(|p: (Seq<char>, Seq<InvocationView>)| p.0), indexed),
            anon: segs.len(),
        }),
    decreases segs.len(),
{
    let texts = segs.map_values(|p: (Seq<char>, Seq<InvocationView>)| p.0);
    if segs.len() > 0 {
        let init = segs.drop_last();
        assert forall|i: int| 0 <= i < init.len() implies (#[trigger] init[i]).1 == seq![InvocationView::Var(Seq::empty())] by {
            assert(init[i] == segs[i]);
        }
        lemma_anonymous_segments(init, named, indexed);
        assert(init.map_values(|p: (Seq<char>, Seq<InvocationView>)| p.0) =~= texts.drop_last());
        let s = BindState { out: texts_with_values(texts.drop_last(), indexed), anon: init.len() };
        let last = segs.last();
        assert(last == segs[segs.len() - 1]);
        assert(last.1 == seq![InvocationView::Var(Seq::empty())]);
        let st = BindState { out: s.out + last.0, anon: s.anon };
        assert(last.1.drop_last() =~= Seq::<InvocationView>::empty());
        assert(bind_invocs(last.1.drop_last(), named, indexed, st) == Ok::<BindState, BindError>(st));
        assert(texts.last() == last.0);
    } else {
        assert(texts =~= Seq::<Seq<char>>::empty());
    }
}

/// For example, a text, an anonymous variable, a text, an anonymous
/// variable and a text, bound with the values `a` and `b`, give the texts
/// with `a` and then `b` in between.
pub proof fn law_two_anonymous_in_order(
    t0: Seq<char>,
    t1: Seq<char>,
    t2: Seq<char>,
    a: Seq<char>,
    b: Seq<char>,
    named: Map<Seq<char>, Seq<char>>,
)
    ensures
        bind_vars_spec(
            InvocationStringView {
                segments: seq![
                    (t0, seq![InvocationView::Var(Seq::empty())]),
                    (t1, seq![InvocationView::Var(Seq::empty())]),
                ],
                tail: t2,
            },
            named,
            seq![a, b],
        ) == Ok::<Seq<char>, BindError>(t0 + a + t1 + b + t2),
{
    let segs = seq![
        (t0, seq![InvocationView::Var(Seq::empty())]),
        (t1, seq![InvocationView::Var(Seq::empty())]),
    ];
    law_anonymous_in_order(segs, t2, named, seq![a, b]);
    let texts = segs.map_values(|p: (Seq<char>, Seq<InvocationView>)| p.0);
    assert(texts.len() == 2 && texts[0] == t0 && texts[1] == t1);
    assert(texts.drop_last().drop_last() =~= Seq::<Seq<char>>::empty());
    assert(texts_with_values(texts.drop_last().drop_last(), seq![a, b]) == Seq::<char>::empty());
    assert(texts.drop_last().last() == t0);
    assert(texts_with_values(texts.drop_last(), seq![a, b]) =~= t0 + a);
    assert(texts_with_values(texts, seq![a, b]) =~= t0 + a + t1 + b);
}

/// Binding goes through the segments in order: binding a string with one
/// more text and variable invocation at the end is binding the string, then
/// the text, then the variable.
pub proof fn law_bind_appends(
    v: InvocationStringView,
    text: Seq<char>,
    var: Seq<char>,
    named: Map<Seq<char>, Seq<char>>,
    indexed: Seq<Seq<char>>,
)
    requires
        var.len() > 0,
        named.contains_key(var),
        v.tail.len() == 0,
        text.len() > 0,
    ensures
        bind_vars_spec(v.add_str(text).add_invoc(InvocationView::Var(var)), named, indexed) == match bind_vars_spec(v, named, indexed) {
            Ok(s) => Ok::<Seq<char>, BindError>(s + text + named[var]),
            Err(e) => Err(e),
        },
{
    let w = v.add_str(text).add_invoc(InvocationView::Var(var));
    assert(w.segments.drop_last() =~= v.segments);
    assert(v.tail + text =~= text);
    assert(seq![InvocationView::Var(var)].drop_last() =~= Seq::<InvocationView>::empty());
    assert(w.segments.last() == (text, seq![InvocationView::Var(var)]));
    match bind_segments(v.segments, named, indexed) {
        Ok(st) => {
            assert(st.out + v.tail =~= st.out);
            let st1 = BindState { out: st.out + text, anon: st.anon };
            assert(bind_invocs(seq![InvocationView::Var(var)].drop_last(), named, indexed, st1) == Ok::<BindState, BindError>(st1));
            let st2 = BindState { out: st.out + text + named[var], anon: st.anon };
            assert(bind_segments(w.segments, named, indexed) == Ok::<BindState, BindError>(st2));
            assert(st2.out + w.tail =~= st2.out);
        },
        Err(_) => {},
    }
}

/// The error that `bind_vars` returns for a failure of binding.
/// The model of the error of binding variables that failed with `b`.
pub open spec fn bind_error_view(b: BindError) -> ErrorView {
    match b {
        BindError::UnknownVariable(v) => plain_error(unknown_variable_msg(v, "<>"@)),
        BindError::TooManyAnonymous => plain_error("Too many anonymous variables"@),
        BindError::NotAVariable => plain_error("Rule invocation where a variable was expected"@),
    }
}

pub open spec fn bind_error_matches(e: MatchError, b: BindError) -> bool {
    e@ == bind_error_view(b)
}

pub open spec fn bind_result_matches(r: MatchResult<String>, s: Result<Seq<char>, BindError>) -> bool {
    match s {
        Ok(t) => r matches Ok(x) && x@ == t,
        Err(b) => r matches Err(e) && bind_error_matches(e, b),
    }
}

pub open spec fn strings_view(v: Seq<String>) -> Seq<Seq<char>> {
    v.map_values(|s: String| s@)
}

proof fn lemma_bind_invocs_err(
    invs: Seq<InvocationView>,
    named: Map<Seq<char>, Seq<char>>,
    indexed: Seq<Seq<char>>,
    st: BindState,
    k: int,
)
    requires
        0 <= k <= invs.len(),
        bind_invocs(invs.take(k), named, indexed, st) is Err,
    ensures
        bind_invocs(invs, named, indexed, st) == bind_invocs(invs.take(k), named, indexed, st),
    decreases invs.len() - k,
{
    if k < invs.len() {
        assert(invs.take(k + 1).drop_last() =~= invs.take(k));
        lemma_bind_invocs_err(invs, named, indexed, st, k + 1);
    } else {
        assert(invs.take(k) =~= invs);
    }
}

proof fn lemma_bind_segments_err(
    segs: Seq<(Seq<char>, Seq<InvocationView>)>,
    named: Map<Seq<char>, Seq<char>>,
    indexed: Seq<Seq<char>>,
    k: int,
)
    requires
        0 <= k <= segs.len(),
        bind_segments(segs.take(k), named, indexed) is Err,
    ensures
        bind_segments(segs, named, indexed) == bind_segments(segs.take(k), named, indexed),
    decreases segs.len() - k,
{
    if k < segs.len() {
        assert(segs.take(k + 1).drop_last() =~= segs.take(k));
        lemma_bind_segments_err(segs, named, indexed, k + 1);
    } else {
        assert(segs.take(k) =~= segs);
    }
}

impl InvocationString {
    /// Declares that every invocation of `self` is a variable invocation;
    /// nothing is checked or changed (see `ensure_only_var_invocs` for the
    /// checked form).
    pub fn assume_only_var_invocs(self) -> (r: VarInvocationString)
        ensures
            r@ == self@,
    {
        VarInvocationString(self)
    }

    /// This string as a string of variable invocations, where all its
    /// invocations are variable invocations; else the string itself.
    pub fn ensure_only_var_invocs(self) -> (r: Result<VarInvocationString, InvocationString>)
        ensures
            match r {
                Ok(v) => self@.only_var_invocs() && v@ == self@,
                Err(s) => !self@.only_var_invocs() && s@ == self@,
            },
    {
        let n = self.segment_count();
        let mut i: usize = 0;
        while i < n
            invariant
                n == self@.segments.len(),
                i <= n,
                forall|a: int, b: int| 0 <= a < i && 0 <= b < self@.segments[a].1.len()
                    ==> #[trigger] self@.segments[a].1[b] is Var,
            decreases n - i,
        {
            let (_, invs) = self.segment(i);
            let mut k: usize = 0;
            while k < invs.len()
                invariant
                    i < n,
                    n == self@.segments.len(),
                    k <= invs@.len(),
                    invs@.len() == self@.segments[i as int].1.len(),
                    forall|j: int| 0 <= j < invs@.len() ==> #[trigger] invs@[j]@ == self@.segments[i as int].1[j],
                    forall|a: int, b: int| 0 <= a < i && 0 <= b < self@.segments[a].1.len()
                        ==> #[trigger] self@.segments[a].1[b] is Var,
                    forall|b: int| 0 <= b < k ==> #[trigger] self@.segments[i as int].1[b] is Var,
                decreases invs@.len() - k,
            {
                proof {
                    lemma_invocation_view(invs@[k as int]);
                }
                match &invs[k] {
                    Invocation::VarInvocation(_) => {
                        assert(self@.segments[i as int].1[k as int] is Var);
                    },
                    Invocation::RuleInvocation(..) => {
                        proof {
                            assert(!(self@.segments[i as int].1[k as int] is Var));
                        }
                        return Err(self);
                    },
                }
                k = k + 1;
            }
            i = i + 1;
        }
        Ok(VarInvocationString(self))
    }

    /// Removes the last invocation, where the string ends in one (see
    /// `without_end_invocation`), and returns it.
    fn pop_end_invoc(&mut self) -> (r: Option<Invocation>)
        ensures
            final(self)@ == without_end_invocation(old(self)@),
            match r {
                Some(i) => old(self)@.tail.len() == 0 && old(self)@.segments.len() > 0
                    && old(self)@.segments.last().1.len() > 0 && i@ == old(self)@.segments.last().1.last(),
                None => !(old(self)@.tail.len() == 0 && old(self)@.segments.len() > 0
                    && old(self)@.segments.last().1.len() > 0),
            },
    {
        proof {
            lemma_segments_view(self.segments@);
        }
        if !self.tail.as_str().is_empty() || self.segments.len() == 0 {
            return None;
        }
        let ghost old_segs = self.segments@;
        let last = self.segments.pop();
        match last {
            Some(last) => {
                let (text, mut invs) = last;
                let ghost old_invs = invs@;
                let r = invs.pop();
                proof {
                    lemma_segments_view_drop_last(old_segs);
                    if old_invs.len() > 0 {
                        assert(old_invs.drop_last() =~= invs@);
                        lemma_invocations_view(old_invs);
                        lemma_invocations_view(invs@);
                        assert(invocations_view(invs@) =~= invocations_view(old_invs).drop_last());
                    } else {
                        assert(invs@ =~= old_invs);
                    }
                    lemma_segments_view_push(self.segments@, (text, invs));
                }
                self.segments.push((text, invs));
                proof {
                    if old_invs.len() > 0 {
                        assert(self@.segments =~= without_end_invocation(old(self)@).segments);
                    } else {
                        assert(self@.segments =~= old(self)@.segments);
                    }
                }
                r
            },
            None => None,
        }
    }

    /// Calls `inner` on this string where a last invocation of the rule
    /// `tail_name` is left out (see `without_tail_view`), on this string
    /// itself otherwise, and returns what `inner` returns.
    pub fn without_tail_recursion<R>(
        &self,
        tail_name: &str,
        inner: impl FnOnce(&InvocationString) -> MatchResult<R>,
    ) -> (r: MatchResult<R>)
        requires
            forall|h: &InvocationString| #[trigger] inner.requires((h,)),
            self@.tail.len() == 0 && self@.segments.len() > 0 && self@.segments.last().1.len() > 0
                ==> self@.segments.last().1.last() is Rule,
        ensures
            exists|h: InvocationString| h@ == without_tail_view(self@, tail_name@) && #[trigger] inner.ensures((&h,), r),
    {
        let is_tail = match self.end_invocation() {
            Some(inv) => {
                proof {
                    lemma_invocation_view(*inv);
                }
                match inv {
                    Invocation::RuleInvocation(_, rule, _) => crate::text::str_eq(rule.as_str(), tail_name),
                    Invocation::VarInvocation(_) => false,
                }
            },
            None => false,
        };
        if is_tail {
            let mut this = self.duplicate();
            this.pop_end_invoc();
            let r = inner(&this);
            r
        } else {
            let r = inner(self);
            r
        }
    }

    /// The last invocation, where the string ends in an invocation.
    pub fn end_invocation(&self) -> (r: Option<&Invocation>)
        ensures
            match r {
                Some(i) => self@.tail.len() == 0 && self@.segments.len() > 0
                    && self@.segments.last().1.len() > 0 && i@ == self@.segments.last().1.last(),
                None => !(self@.tail.len() == 0 && self@.segments.len() > 0
                    && self@.segments.last().1.len() > 0),
            },
    {
        let n = self.segment_count();
        if n > 0 && self.tail_text().is_empty() {
            let (_, invs) = self.segment(n - 1);
            if invs.len() > 0 {
                Some(&invs[invs.len() - 1])
            } else {
                None
            }
        } else {
            None
        }
    }
}

impl VarInvocationString {
    /// The text with each variable invocation replaced by its value.
    pub fn bind_vars(&self, named_binds: &Vars, unnamed_binds: &Vec<String>) -> (r: MatchResult<String>)
        ensures
            bind_result_matches(r, bind_vars_spec(self@, named_binds@, strings_view(unnamed_binds@))),
    {
        let this = &self.0;
        let ghost named = named_binds@;
        let ghost indexed = strings_view(unnamed_binds@);
        let ghost segs = this@.segments;
        let mut anon_i: usize = 0;
        let mut buf = String::new();
        let n = this.segment_count();
        let mut i: usize = 0;
        while i < n
            invariant
                n == segs.len(),
                segs == this@.segments,
                segs == self@.segments,
                i <= n,
                named == named_binds@,
                indexed == strings_view(unnamed_binds@),
                bind_segments(segs.take(i as int), named, indexed)
                    == Ok::<BindState, BindError>(BindState { out: buf@, anon: anon_i as nat }),
            decreases n - i,
        {
            let (part, invocations) = this.segment(i);
            let ghost st_prev = BindState { out: buf@, anon: anon_i as nat };
            buf.append(part);
            let ghost st0 = BindState { out: buf@, anon: anon_i as nat };
            let ghost invs = segs[i as int].1;
            let mut j: usize = 0;
            while j < invocations.len()
                invariant
                    j <= invocations@.len(),
                    invocations@.len() == invs.len(),
                    forall|k: int| 0 <= k < invs.len() ==> #[trigger] invocations@[k]@ == invs[k],
                    named == named_binds@,
                    indexed == strings_view(unnamed_binds@),
                    bind_invocs(invs.take(j as int), named, indexed, st0)
                        == Ok::<BindState, BindError>(BindState { out: buf@, anon: anon_i as nat }),
                    i < n,
                    n == segs.len(),
                    segs == self@.segments,
                    invs == segs[i as int].1,
                    bind_segments(segs.take(i as int), named, indexed) == Ok::<BindState, BindError>(st_prev),
                    st0 == (BindState { out: st_prev.out + segs[i as int].0, anon: st_prev.anon }),
                decreases invocations@.len() - j,
            {
                let ghost prev = BindState { out: buf@, anon: anon_i as nat };
                proof {
                    assert(invs.take(j + 1).drop_last() =~= invs.take(j as int));
                    assert(invs.take(j + 1).last() == invs[j as int]);
                }
                proof {
                    assert(invocations@[j as int]@ == invs[j as int]);
                }
                match &invocations[j] {
                    Invocation::VarInvocation(var) => {
                        if !var.as_str().is_empty() {
                            match named_binds.get(var.as_str()) {
                                Some(value) => {
                                    buf.append(value.as_str());
                                },
                                None => {
                                    proof {
                                        lemma_bind_invocs_err(invs, named, indexed, st0, j + 1);
                                        assert(segs.take(i + 1).drop_last() =~= segs.take(i as int));
                                        assert(segs.take(i + 1).last() == segs[i as int]);
                                        lemma_bind_segments_err(segs, named, indexed, i + 1);
                                    }
                                    return Err(MatchError::unknown_variable(var.as_str(), "<>"));
                                },
                            }
                        } else {
                            if anon_i < unnamed_binds.len() {
                                buf.append(unnamed_binds[anon_i].as_str());
                                anon_i = anon_i + 1;
                            } else {
                                proof {
                                    lemma_bind_invocs_err(invs, named, indexed, st0, j + 1);
                                    assert(segs.take(i + 1).drop_last() =~= segs.take(i as int));
                                    assert(segs.take(i + 1).last() == segs[i as int]);
                                    lemma_bind_segments_err(segs, named, indexed, i + 1);
                                }
                                return Err(MatchError::new("Too many anonymous variables"));
                            }
                        }
                    },
                    Invocation::RuleInvocation(..) => {
                        proof {
                            lemma_bind_invocs_err(invs, named, indexed, st0, j + 1);
                            assert(segs.take(i + 1).drop_last() =~= segs.take(i as int));
                            assert(segs.take(i + 1).last() == segs[i as int]);
                            lemma_bind_segments_err(segs, named, indexed, i + 1);
                        }
                        return Err(MatchError::new("Rule invocation where a variable was expected"));
                    },
                }
                j = j + 1;
            }
            proof {
                assert(invs.take(invs.len() as int) =~= invs);
                assert(segs.take(i + 1).drop_last() =~= segs.take(i as int));
                assert(segs.take(i + 1).last() == segs[i as int]);
            }
            i = i + 1;
        }
        buf.append(this.tail_text());
        proof {
            assert(segs.take(n as int) =~= segs);
        }
        Ok(buf)
    }

    /// The invocation string itself: undoes `assume_only_var_invocs`.
    pub fn unwrap(self) -> (r: InvocationString)
        ensures
            r@ == self@,
    {
        self.0
    }
}


/// Whether `s` holds a white space character.
fn has_whitespace(s: &str) -> (r: bool)
    ensures
        r == exists|i: int| 0 <= i < s@.len() && spec_is_whitespace(#[trigger] s@[i]),
{
    let mut rest = s;
    let ghost mut k: int = 0;
    loop
        invariant
            0 <= k <= s@.len(),
            rest@ == s@.skip(k),
            forall|i: int| 0 <= i < k ==> !spec_is_whitespace(#[trigger] s@[i]),
        decreases rest@.len(),
    {
        match split_first_char(rest) {
            Some((c, r)) => {
                assert(s@[k] == rest@[0]);
                if char_is_whitespace(c) {
                    return true;
                }
                rest = r;
                proof {
                    k = k + 1;
                    assert(rest@ =~= s@.skip(k));
                }
            },
            None => {
                return false;
            },
        }
    }
}

fn push_part_text(out: &mut String, t: &str)
    ensures
        final(out)@ == old(out)@ + part_text_display(t@),
{
    if has_whitespace(t) {
        out.append("{'");
        out.append(t);
        out.append("'} ");
        proof {
            assert(final(out)@ =~= old(out)@ + part_text_display(t@));
        }
    } else {
        out.append(t);
        out.append(" ");
        proof {
            assert(final(out)@ =~= old(out)@ + part_text_display(t@));
        }
    }
}

impl Invocation {
    /// The text form of the invocation, as `:var:rule(param)` or `:var`.
    pub fn to_display_string(&self) -> (r: String)
        ensures
            r@ == invocation_display(self@),
        decreases self,
    {
        match self {
            Invocation::RuleInvocation(var, rule, param) => {
                let mut out = String::from_str(":");
                out.append(var.as_str());
                out.append(":");
                out.append(rule.as_str());
                if !param.is_empty() {
                    out.append("(");
                    let p = param.to_display_string();
                    out.append(p.as_str());
                    out.append(")");
                }
                proof {
                    assert(out@ =~= invocation_display(self@));
                }
                out
            },
            Invocation::VarInvocation(var) => {
                let mut out = String::from_str(":");
                out.append(var.as_str());
                proof {
                    assert(out@ =~= invocation_display(self@));
                }
                out
            },
        }
    }
}

impl InvocationString {
    /// The text form: each text part and each invocation followed by a space,
    /// text parts with white space in `{'`..`'}`.
    pub fn to_display_string(&self) -> (r: String)
        ensures
            r@ == istr_display(self@),
        decreases self,
    {
        let mut out = String::new();
        let ghost segs = self@.segments;
        proof {
            lemma_segments_view(self.segments@);
        }
        let mut i: usize = 0;
        while i < self.segments.len()
            invariant
                i <= self.segments@.len(),
                segs == self@.segments,
                segs == segments_view(self.segments@),
                segs.len() == self.segments@.len(),
                forall|k: int| 0 <= k < self.segments@.len() ==> #[trigger] segs[k]
                    == (self.segments@[k].0@, invocations_view(self.segments@[k].1@)),
                out@ == istr_display_parts(segs.take(i as int)),
                forall|a: int, b: int| 0 <= a < self.segments@.len() && 0 <= b < self.segments@[a].1@.len()
                    ==> decreases_to!(*self => #[trigger] self.segments@[a].1@[b]),
            decreases self.segments@.len() - i,
        {
            let seg = &self.segments[i];
            let ghost before = out@;
            push_part_text(&mut out, seg.0.as_str());
            let ghost invs = segs[i as int].1;
            proof {
                lemma_invocations_view(seg.1@);
            }
            let mut j: usize = 0;
            while j < seg.1.len()
                invariant
                    j <= seg.1@.len(),
                    i < self.segments@.len(),
                    seg == self.segments@[i as int],
                    invs == invocations_view(seg.1@),
                    invs.len() == seg.1@.len(),
                    forall|k: int| 0 <= k < seg.1@.len() ==> #[trigger] invs[k] == seg.1@[k]@,
                    out@ == before + part_text_display(seg.0@) + invocations_display(invs.take(j as int)),
                    forall|a: int, b: int| 0 <= a < self.segments@.len() && 0 <= b < self.segments@[a].1@.len()
                        ==> decreases_to!(*self => #[trigger] self.segments@[a].1@[b]),
                decreases seg.1@.len() - j,
            {
                let d = seg.1[j].to_display_string();
                out.append(d.as_str());
                out.append(" ");
                proof {
                    assert(invs.take(j + 1).drop_last() =~= invs.take(j as int));
                    assert(out@ =~= before + part_text_display(seg.0@) + invocations_display(invs.take(j + 1)));
                }
                j = j + 1;
            }
            proof {
                assert(invs.take(invs.len() as int) =~= invs);
                assert(segs.take(i + 1).drop_last() =~= segs.take(i as int));
                assert(out@ =~= istr_display_parts(segs.take(i + 1)));
            }
            i = i + 1;
        }
        push_part_text(&mut out, self.tail.as_str());
        proof {
            assert(segs.take(segs.len() as int) =~= segs);
        }
        out
    }
}

} // verus!
