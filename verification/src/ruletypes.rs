//! Plain rules: headers with rule invocations `:var:rule`, bodies with
//! variable invocations `:var`, both kept as rule parts (text interleaved
//! with invocations), and rules made of such variants.
use vstd::prelude::*;
use vstd::string::*;
use vstd::hash_map::StringHashMap;
use crate::error::{MatchError, MatchResult};
use crate::text::push_char;
use crate::vars::Vars;
use crate::types::invocation::Invocation;
use crate::types::invocation_string::{
    InvocationString, InvocationStringView, InvocationView, VarInvocationString, bind_vars_spec,
    bind_result_matches, strings_view,
};
use crate::part_match::{spec_rule_part, match_rule_part, match_invocation, match_var};

verus! {

broadcast use vstd::string::group_string_axioms;

/// An invocation of a rule whose result is bound to a variable: `:var:rule`
/// (`::rule` binds it to the next anonymous slot).
#[derive(PartialEq, Eq, Debug, Clone)]
pub struct RuleInvocation(pub String, pub String);

impl View for RuleInvocation {
    type V = (Seq<char>, Seq<char>);

    open spec fn view(&self) -> (Seq<char>, Seq<char>) {
        (self.0@, self.1@)
    }
}

impl RuleInvocation {
    pub fn new(result_var: &str, rule: &str) -> (r: RuleInvocation)
        ensures
            r@ == (result_var@, rule@),
    {
        RuleInvocation(result_var.to_string(), rule.to_string())
    }

    /// The variable that the result is bound to (empty for an anonymous slot).
    pub fn result_var(&self) -> (r: &str)
        ensures
            r@ == self@.0,
    {
        self.0.as_str()
    }

    /// The invoked rule.
    pub fn rule(&self) -> (r: &str)
        ensures
            r@ == self@.1,
    {
        self.1.as_str()
    }

    /// A copy of the invocation.
    pub fn duplicate(&self) -> (r: RuleInvocation)
        ensures
            r@ == self@,
    {
        RuleInvocation(self.0.clone(), self.1.clone())
    }
}

/// An invocation of a variable: `:var` (`:` alone for the next anonymous slot).
#[derive(PartialEq, Eq, Debug, Clone)]
pub struct VarInvocation(pub String);

impl View for VarInvocation {
    type V = Seq<char>;

    open spec fn view(&self) -> Seq<char> {
        self.0@
    }
}

impl VarInvocation {
    pub fn new(name: &str) -> (r: VarInvocation)
        ensures
            r@ == name@,
    {
        VarInvocation(name.to_string())
    }

    pub fn var_name(&self) -> (r: &str)
        ensures
            r@ == self@,
    {
        self.0.as_str()
    }
}

/// The model of a rule part: text parts, each followed by the invocations
/// that stand right after it, and a final text.
#[verifier::ext_equal]
pub struct RulePartView<V> {
    pub segments: Seq<(Seq<char>, Seq<V>)>,
    pub tail: Seq<char>,
}

impl<V> RulePartView<V> {
    pub open spec fn empty() -> RulePartView<V> {
        RulePartView { segments: Seq::empty(), tail: Seq::empty() }
    }

    /// All parts in order: the segments, then the final text with no invocation.
    pub open spec fn parts(self) -> Seq<(Seq<char>, Seq<V>)> {
        self.segments.push((self.tail, Seq::empty()))
    }

    /// Appends text at the end.
    pub open spec fn add_str(self, s: Seq<char>) -> RulePartView<V> {
        RulePartView { segments: self.segments, tail: self.tail + s }
    }

    /// Appends an invocation at the end: to the invocations of the last
    /// segment where no text came after them, else after the text so far.
    pub open spec fn add_invoc(self, i: V) -> RulePartView<V> {
        if self.tail.len() == 0 && self.segments.len() > 0 {
            let last = self.segments.last();
            RulePartView { segments: self.segments.drop_last().push((last.0, last.1.push(i))), tail: self.tail }
        } else {
            RulePartView { segments: self.segments.push((self.tail, seq![i])), tail: Seq::empty() }
        }
    }

    /// The last invocation, where the part ends in one (no text after it).
    pub open spec fn end_invocation(self) -> Option<V> {
        if self.tail.len() == 0 && self.segments.len() > 0 && self.segments.last().1.len() > 0 {
            Some(self.segments.last().1.last())
        } else {
            None
        }
    }
}

/// Adding two texts one after the other adds them joined.
pub proof fn law_add_str_joins<V>(p: RulePartView<V>, a: Seq<char>, b: Seq<char>)
    ensures
        p.add_str(a).add_str(b) == p.add_str(a + b),
{
    assert(p.tail + a + b =~= p.tail + (a + b));
}

/// Adding an invocation keeps all text and invocations before it in order:
/// it shows up as the last invocation, and the part ends in it.
pub proof fn law_add_invoc_last<V>(p: RulePartView<V>, i: V)
    ensures
        p.add_invoc(i).end_invocation() == Some(i),
        p.add_invoc(i).segments.len() > 0,
        p.add_invoc(i).segments.drop_last() == p.segments.take(p.add_invoc(i).segments.len() - 1),
{
    let q = p.add_invoc(i);
    if p.tail.len() == 0 && p.segments.len() > 0 {
        assert(q.segments.drop_last() =~= p.segments.drop_last());
        assert(p.segments.take(p.segments.len() - 1) =~= p.segments.drop_last());
    } else {
        assert(q.segments.drop_last() =~= p.segments);
        assert(p.segments.take(p.segments.len() as int) =~= p.segments);
    }
}

/// Text interleaved with invocations: the header or the body of a rule.
#[derive(PartialEq, Eq, Debug, Clone)]
pub struct RulePart<I> {
    segments: Vec<(String, Vec<I>)>,
    tail: String,
}

/// Builds a `RulePart` piece by piece.
#[derive(PartialEq, Eq, Debug, Clone)]
pub struct RulePartBuilder<I>(RulePart<I>);

pub open spec fn seq_views<I: View>(s: Seq<I>) -> Seq<I::V> {
    s.map_values(|x: I| x@)
}

pub open spec fn part_segments_view<I: View>(s: Seq<(String, Vec<I>)>) -> Seq<(Seq<char>, Seq<I::V>)> {
    s.map_values(|p: (String, Vec<I>)| (p.0@, seq_views(p.1@)))
}

impl<I: View> View for RulePart<I> {
    type V = RulePartView<I::V>;

    closed spec fn view(&self) -> RulePartView<I::V> {
        RulePartView { segments: part_segments_view(self.segments@), tail: self.tail@ }
    }
}

impl<I: View> View for RulePartBuilder<I> {
    type V = RulePartView<I::V>;

    closed spec fn view(&self) -> RulePartView<I::V> {
        self.0@
    }
}

/// A rule header: text and rule invocations.
pub type Header = RulePart<RuleInvocation>;

/// A rule body: text and variable invocations.
pub type Body = RulePart<VarInvocation>;

impl<I: View> RulePart<I> {
    /// A builder that starts with nothing.
    pub fn new() -> (r: RulePartBuilder<I>)
        ensures
            r@ == RulePartView::<I::V>::empty(),
    {
        let r = RulePartBuilder(RulePart { segments: Vec::new(), tail: String::new() });
        proof {
            assert(r@ =~= RulePartView::<I::V>::empty());
        }
        r
    }

    /// Plain text, without invocations.
    pub fn literally(text: &str) -> (r: RulePart<I>)
        ensures
            r@ == RulePartView::<I::V>::empty().add_str(text@),
    {
        let r = RulePart { segments: Vec::new(), tail: text.to_string() };
        proof {
            assert(r@ =~= RulePartView::<I::V>::empty().add_str(text@));
        }
        r
    }

    /// The text and invocation segments in order, the final text last (with
    /// no invocations); some may be empty.
    pub fn iter(&self) -> (r: Vec<(&str, &[I])>)
        ensures
            r@.len() == self@.parts().len(),
            forall|j: int| 0 <= j < r@.len() ==> (#[trigger] r@[j]).0@ == self@.parts()[j].0
                && seq_views(r@[j].1@) == self@.parts()[j].1,
    {
        let mut r: Vec<(&str, &[I])> = Vec::new();
        let mut i: usize = 0;
        while i < self.segments.len()
            invariant
                i <= self.segments@.len(),
                r@.len() == i,
                forall|j: int| 0 <= j < i ==> (#[trigger] r@[j]).0@ == self@.parts()[j].0
                    && seq_views(r@[j].1@) == self@.parts()[j].1,
            decreases self.segments@.len() - i,
        {
            let seg = &self.segments[i];
            r.push((seg.0.as_str(), seg.1.as_slice()));
            i = i + 1;
        }
        let empty: &[I] = &[];
        proof {
            assert(seq_views(empty@) =~= Seq::<I::V>::empty());
        }
        r.push((self.tail.as_str(), empty));
        r
    }

    /// The last invocation, where the part ends in one (no text after it).
    pub fn end_invocation(&self) -> (r: Option<&I>)
        ensures
            match r {
                Some(i) => self@.end_invocation() == Some(i@),
                None => self@.end_invocation() is None,
            },
    {
        let n = self.segments.len();
        if n > 0 && self.tail.as_str().is_empty() {
            let invs = &self.segments[n - 1].1;
            if invs.len() > 0 {
                Some(&invs[invs.len() - 1])
            } else {
                None
            }
        } else {
            None
        }
    }
}

impl<I: View> RulePartBuilder<I> {
    pub fn add_char(&mut self, c: char)
        ensures
            final(self)@ == old(self)@.add_str(seq![c]),
    {
        push_char(&mut self.0.tail, c);
        proof {
            assert(self@ =~= old(self)@.add_str(seq![c]));
        }
    }

    pub fn add_str(&mut self, s: &str)
        ensures
            final(self)@ == old(self)@.add_str(s@),
    {
        self.0.tail.append(s);
        proof {
            assert(self@ =~= old(self)@.add_str(s@));
        }
    }

    /// Adds an invocation at the end of the part built so far.
    pub fn add_invoc(&mut self, invoc: I)
        ensures
            final(self)@ == old(self)@.add_invoc(invoc@),
    {
        let ghost iv = invoc@;
        let ghost old_segs = self.0.segments@;
        if self.0.tail.as_str().is_empty() && self.0.segments.len() > 0 {
            let last = self.0.segments.pop();
            match last {
                Some(last) => {
                    let (text, mut invs) = last;
                    let ghost old_invs = invs@;
                    invs.push(invoc);
                    proof {
                        assert(seq_views(invs@) =~= seq_views(old_invs).push(iv));
                    }
                    self.0.segments.push((text, invs));
                    proof {
                        assert(part_segments_view(self.0.segments@) =~= part_segments_view(old_segs).drop_last().push(
                            (part_segments_view(old_segs).last().0, part_segments_view(old_segs).last().1.push(iv)),
                        ));
                        assert(self@ =~= old(self)@.add_invoc(iv));
                    }
                },
                None => {},
            }
        } else {
            let text = self.0.tail.clone();
            self.0.tail = String::new();
            let mut invs = Vec::new();
            invs.push(invoc);
            proof {
                assert(seq_views(invs@) =~= seq![iv]);
            }
            self.0.segments.push((text, invs));
            proof {
                assert(part_segments_view(self.0.segments@) =~= part_segments_view(old_segs).push((old(self)@.tail, seq![iv])));
                assert(self@ =~= old(self)@.add_invoc(iv));
            }
        }
    }

    pub fn seal(self) -> (r: RulePart<I>)
        ensures
            r@ == self@,
    {
        self.0
    }
}

/// `p` without its last invocation, where it ends in one.
pub open spec fn part_without_end<V>(p: RulePartView<V>) -> RulePartView<V> {
    if p.tail.len() == 0 && p.segments.len() > 0 && p.segments.last().1.len() > 0 {
        RulePartView {
            segments: p.segments.drop_last().push((p.segments.last().0, p.segments.last().1.drop_last())),
            tail: p.tail,
        }
    } else {
        p
    }
}

/// The header `h` without its last invocation where that invokes the rule
/// `tail_name`.
pub open spec fn header_without_tail(h: RulePartView<(Seq<char>, Seq<char>)>, tail_name: Seq<char>) -> RulePartView<(Seq<char>, Seq<char>)> {
    match h.end_invocation() {
        Some((_, rule)) => if rule == tail_name {
            part_without_end(h)
        } else {
            h
        },
        None => h,
    }
}

/// The body that a header stands for: each rule invocation replaced by an
/// invocation of the variable its result is bound to.
pub open spec fn header_as_body(h: RulePartView<(Seq<char>, Seq<char>)>) -> RulePartView<Seq<char>> {
    RulePartView {
        segments: h.segments.map_values(
            |p: (Seq<char>, Seq<(Seq<char>, Seq<char>)>)| (p.0, p.1.map_values(|ri: (Seq<char>, Seq<char>)| ri.0)),
        ),
        tail: h.tail,
    }
}

/// A body as an invocation string of variable invocations.
pub open spec fn body_istr(b: RulePartView<Seq<char>>) -> InvocationStringView {
    InvocationStringView {
        segments: b.segments.map_values(
            |p: (Seq<char>, Seq<Seq<char>>)| (p.0, p.1.map_values(|v: Seq<char>| InvocationView::Var(v))),
        ),
        tail: b.tail,
    }
}

impl RulePart<RuleInvocation> {
    /// The body that this header stands for (see `header_as_body`).
    pub fn as_body(&self) -> (r: Body)
        ensures
            r@ == header_as_body(self@),
    {
        let mut segments: Vec<(String, Vec<VarInvocation>)> = Vec::new();
        let mut i: usize = 0;
        while i < self.segments.len()
            invariant
                i <= self.segments@.len(),
                segments@.len() == i,
                forall|j: int| 0 <= j < i ==> #[trigger] part_segments_view(segments@)[j]
                    == header_as_body(self@).segments[j],
            decreases self.segments@.len() - i,
        {
            let seg = &self.segments[i];
            let mut vars: Vec<VarInvocation> = Vec::new();
            let mut k: usize = 0;
            while k < seg.1.len()
                invariant
                    k <= seg.1@.len(),
                    vars@.len() == k,
                    forall|j: int| 0 <= j < k ==> (#[trigger] vars@[j])@ == seg.1@[j]@.0,
                decreases seg.1@.len() - k,
            {
                vars.push(VarInvocation::new(seg.1[k].result_var()));
                k = k + 1;
            }
            let ghost before = segments@;
            let text = seg.0.clone();
            proof {
                assert(text@ == seg.0@);
                assert(self@.segments[i as int] == (seg.0@, seq_views(seg.1@)));
            }
            segments.push((text, vars));
            proof {
                assert(seq_views(vars@) =~= header_as_body(self@).segments[i as int].1);
                assert forall|j: int| 0 <= j <= i implies #[trigger] part_segments_view(segments@)[j]
                    == header_as_body(self@).segments[j] by {
                    if j < i {
                        assert(segments@[j] == before[j]);
                        assert(part_segments_view(before)[j] == header_as_body(self@).segments[j]);
                    } else {
                        assert(segments@[j].0@ == header_as_body(self@).segments[j].0);
                        assert(seq_views(segments@[j].1@) == header_as_body(self@).segments[j].1);
                    }
                }
            }
            i = i + 1;
        }
        let r = RulePart { segments: segments, tail: self.tail.clone() };
        proof {
            assert(r@ =~= header_as_body(self@));
        }
        r
    }
}

impl RulePart<RuleInvocation> {
    /// A copy of the header.
    pub fn duplicate(&self) -> (r: Header)
        ensures
            r@ == self@,
    {
        let mut segments: Vec<(String, Vec<RuleInvocation>)> = Vec::new();
        let mut i: usize = 0;
        while i < self.segments.len()
            invariant
                i <= self.segments@.len(),
                segments@.len() == i,
                forall|j: int| 0 <= j < i ==> #[trigger] part_segments_view(segments@)[j] == self@.segments[j],
            decreases self.segments@.len() - i,
        {
            let seg = &self.segments[i];
            let mut invs: Vec<RuleInvocation> = Vec::new();
            let mut k: usize = 0;
            while k < seg.1.len()
                invariant
                    k <= seg.1@.len(),
                    invs@.len() == k,
                    forall|j: int| 0 <= j < k ==> (#[trigger] invs@[j])@ == seg.1@[j]@,
                decreases seg.1@.len() - k,
            {
                invs.push(seg.1[k].duplicate());
                k = k + 1;
            }
            let ghost before = segments@;
            let text = seg.0.clone();
            proof {
                assert(seq_views(invs@) =~= seq_views(seg.1@));
                assert(self@.segments[i as int] == (seg.0@, seq_views(seg.1@)));
            }
            segments.push((text, invs));
            proof {
                assert forall|j: int| 0 <= j <= i implies #[trigger] part_segments_view(segments@)[j] == self@.segments[j] by {
                    if j < i {
                        assert(segments@[j] == before[j]);
                        assert(part_segments_view(before)[j] == self@.segments[j]);
                    }
                }
            }
            i = i + 1;
        }
        let r = RulePart { segments: segments, tail: self.tail.clone() };
        proof {
            assert(r@ =~= self@);
        }
        r
    }

    /// Removes the last invocation, where the header ends in one.
    fn pop_end_invoc(&mut self) -> (r: Option<RuleInvocation>)
        ensures
            final(self)@ == part_without_end(old(self)@),
            match r {
                Some(i) => old(self)@.end_invocation() == Some(i@),
                None => old(self)@.end_invocation() is None,
            },
    {
        if !self.tail.as_str().is_empty() || self.segments.len() == 0 {
            return None;
        }
        let ghost old_segs = self.segments@;
        let last = self.segments.pop();
        match last {
            Some(last) => {
                let (text, mut invs) = last;
                let ghost old_invs = invs@;
                let r = invs.pop();
                proof {
                    if old_invs.len() > 0 {
                        assert(seq_views(invs@) =~= seq_views(old_invs).drop_last());
                    } else {
                        assert(invs@ =~= old_invs);
                    }
                }
                self.segments.push((text, invs));
                proof {
                    if old_invs.len() > 0 {
                        assert(self@ =~= part_without_end(old(self)@));
                    } else {
                        assert(self@ =~= old(self)@);
                    }
                }
                r
            },
            None => None,
        }
    }

    /// Calls `inner` on this header where a last invocation of the rule
    /// `tail_name` is left out (see `header_without_tail`), on this header
    /// itself otherwise, and returns what `inner` returns.
    pub fn without_tail_recursion<R>(&self, tail_name: &str, inner: impl FnOnce(&Header) -> MatchResult<R>) -> (r: MatchResult<R>)
        requires
            forall|h: &Header| #[trigger] inner.requires((h,)),
        ensures
            exists|h: Header| h@ == header_without_tail(self@, tail_name@) && #[trigger] inner.ensures((&h,), r),
    {
        let is_tail = match self.end_invocation() {
            Some(inv) => crate::text::str_eq(inv.rule(), tail_name),
            None => false,
        };
        if is_tail {
            let mut this = self.duplicate();
            this.pop_end_invoc();
            inner(&this)
        } else {
            inner(self)
        }
    }
}

impl RulePart<VarInvocation> {
    /// This body as an invocation string (see `body_istr`).
    pub fn to_invocation_string(&self) -> (r: VarInvocationString)
        ensures
            r@ == body_istr(self@),
    {
        let mut segments: Vec<(String, Vec<Invocation>)> = Vec::new();
        let mut i: usize = 0;
        while i < self.segments.len()
            invariant
                i <= self.segments@.len(),
                segments@.len() == i,
                forall|j: int| 0 <= j < i ==> (#[trigger] segments@[j]).0@ == body_istr(self@).segments[j].0
                    && segments@[j].1@.map_values(|x: Invocation| x@) == body_istr(self@).segments[j].1,
            decreases self.segments@.len() - i,
        {
            let seg = &self.segments[i];
            let mut invs: Vec<Invocation> = Vec::new();
            let mut k: usize = 0;
            while k < seg.1.len()
                invariant
                    k <= seg.1@.len(),
                    invs@.len() == k,
                    forall|j: int| 0 <= j < k ==> (#[trigger] invs@[j])@ == InvocationView::Var(seg.1@[j]@),
                decreases seg.1@.len() - k,
            {
                invs.push(Invocation::new_var_invocation(seg.1[k].var_name()));
                k = k + 1;
            }
            proof {
                assert(invs@.map_values(|x: Invocation| x@) =~= body_istr(self@).segments[i as int].1);
            }
            let text = seg.0.clone();
            proof {
                assert(text@ == seg.0@);
                assert(self@.segments[i as int] == (seg.0@, seq_views(seg.1@)));
            }
            segments.push((text, invs));
            i = i + 1;
        }
        let tail = self.tail.clone();
        let s = InvocationString::from_segments(segments, tail);
        proof {
            assert(s@.segments =~= body_istr(self@).segments);
            assert(s@.tail == body_istr(self@).tail);
            assert forall|a: int, b: int|
                0 <= a < s@.segments.len() && 0 <= b < s@.segments[a].1.len()
                    implies #[trigger] s@.segments[a].1[b] is Var by {
                assert(s@.segments[a] == body_istr(self@).segments[a]);
            }
        }
        s.assume_only_var_invocs()
    }

    /// The text of this body with each variable invocation replaced by its
    /// value: named ones from `named_binds`, anonymous ones from
    /// `unnamed_binds`, in order.
    pub fn bind_vars(&self, named_binds: &Vars, unnamed_binds: &Vec<String>) -> (r: MatchResult<String>)
        ensures
            bind_result_matches(r, bind_vars_spec(body_istr(self@), named_binds@, strings_view(unnamed_binds@))),
    {
        let s = self.to_invocation_string();
        s.bind_vars(named_binds, unnamed_binds)
    }
}

/// Parses a header from its text (without braces).
pub fn parse_header(s: &str) -> (r: MatchResult<Header>)
    ensures
        match spec_rule_part::<RuleInvocation>(seq!['{'] + s@ + seq!['}']) {
            Ok((rest, Some(h))) => if rest.len() == 0 {
                r matches Ok(x) && x@ == h
            } else {
                r is Err
            },
            _ => r is Err,
        },
{
    let mut added_braces = String::from_str("{");
    added_braces.append(s);
    added_braces.append("}");
    proof {
        reveal_strlit("{");
        reveal_strlit("}");
        assert(added_braces@ =~= seq!['{'] + s@ + seq!['}']);
    }
    let (rest, header) = match match_rule_part(added_braces.as_str(), match_invocation) {
        Ok(x) => x,
        Err(e) => return Err(e),
    };
    if rest.is_empty() {
        match header {
            Some(h) => Ok(h),
            None => Err(MatchError::expected("{", added_braces.as_str())),
        }
    } else {
        Err(MatchError::expected("end of string", rest))
    }
}

/// Parses a body from its text (without braces).
pub fn parse_body(s: &str) -> (r: MatchResult<Body>)
    ensures
        match spec_rule_part::<VarInvocation>(seq!['{'] + s@ + seq!['}']) {
            Ok((rest, Some(b))) => if rest.len() == 0 {
                r matches Ok(x) && x@ == b
            } else {
                r is Err
            },
            _ => r is Err,
        },
{
    let mut added_braces = String::from_str("{");
    added_braces.append(s);
    added_braces.append("}");
    proof {
        reveal_strlit("{");
        reveal_strlit("}");
        assert(added_braces@ =~= seq!['{'] + s@ + seq!['}']);
    }
    let (rest, body) = match match_rule_part(added_braces.as_str(), match_var) {
        Ok(x) => x,
        Err(e) => return Err(e),
    };
    if rest.is_empty() {
        match body {
            Some(b) => Ok(b),
            None => Err(MatchError::expected("{", added_braces.as_str())),
        }
    } else {
        Err(MatchError::expected("end of string", rest))
    }
}

/// The model of a plain rule variant.
pub struct PlainVariantView {
    pub match_: RulePartView<(Seq<char>, Seq<char>)>,
    pub replace: Option<RulePartView<Seq<char>>>,
    pub append: Seq<char>,
}

/// A plain rule variant: the header to match, the body that replaces what
/// it matched (without one, the matched text itself), and text appended to
/// the replacement.
#[derive(PartialEq, Eq, Debug)]
pub struct RuleVariant {
    pub match_: Header,
    pub replace: Option<Body>,
    pub append: String,
}

impl View for RuleVariant {
    type V = PlainVariantView;

    open spec fn view(&self) -> PlainVariantView {
        PlainVariantView {
            match_: self.match_@,
            replace: match self.replace {
                Some(b) => Some(b@),
                None => None,
            },
            append: self.append@,
        }
    }
}

/// The model of a plain rule.
pub struct PlainRuleView {
    pub name: Seq<char>,
    pub variants: Seq<PlainVariantView>,
}

/// A plain rule: its name and its variants, the last of which is tried first.
#[derive(PartialEq, Eq, Debug)]
pub struct Rule {
    pub name: String,
    pub variants: Vec<RuleVariant>,
}

impl View for Rule {
    type V = PlainRuleView;

    open spec fn view(&self) -> PlainRuleView {
        PlainRuleView { name: self.name@, variants: seq_views(self.variants@) }
    }
}

impl Rule {
    /// A rule without variants.
    pub fn new(name: String) -> (r: Rule)
        ensures
            r@ == (PlainRuleView { name: name@, variants: Seq::empty() }),
    {
        let r = Rule { name: name, variants: Vec::new() };
        proof {
            assert(seq_views(r.variants@) =~= Seq::<PlainVariantView>::empty());
        }
        r
    }

    /// The rule with the variant `v` added last.
    pub fn variant(self, v: RuleVariant) -> (r: Rule)
        ensures
            r@ == (PlainRuleView { name: self@.name, variants: self@.variants.push(v@) }),
    {
        let mut s = self;
        let ghost old_vs = s.variants@;
        let ghost vv = v@;
        s.variants.push(v);
        proof {
            assert(seq_views(s.variants@) =~= seq_views(old_vs).push(vv));
        }
        s
    }
}

/// Plain rules by name.
pub type Rules = StringHashMap<Rule>;

} // verus!
