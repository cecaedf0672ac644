//! Specialization: from a pattern with variables to a pattern of plain text.

use vstd::prelude::*;
use crate::error::Error;
use crate::ident::{Ident, Str};
use crate::pattern::Var;
use crate::pattern::matcher::{first_match, in_bytes, spans_within, Captures, Eval, GroupNumber};
use crate::pattern::parse::{
    ast_view, branches_view, branches_view_index, class_view, group_view, leaf_view, leaves_view,
    leaves_view_index, Ast, Branch, Class, Group, Leaf, Member, Repeat,
};
use vstd::utf8::encode_utf8;

verus! {

/// Whether two classes accept the same code points by the same description.
pub open spec fn same_class(a: Class, b: Class) -> bool {
    match a {
        Class::Dot => b is Dot,
        Class::Digit => b is Digit,
        Class::Word => b is Word,
        Class::Space => b is Space,
        Class::Custom { invert, members } => b matches Class::Custom {
            invert: inverted,
            members: listed,
        } && invert == inverted && members@ == listed@,
    }
}

/// Whether leaf `b` is leaf `a` with every payload replaced by one that
/// `rel` relates to it, and everything else kept.
pub open spec fn leaf_maps<In, Out>(rel: spec_fn(In, Out) -> bool, a: Leaf<In>, b: Leaf<Out>) -> bool
    decreases a,
{
    match a {
        Leaf::Payload(p) => b matches Leaf::Payload(q) && rel(p, q),
        Leaf::Group(g) => b matches Leaf::Group(h) && group_maps(rel, g, h),
        Leaf::Repeat { prefix, times, suffix } => b matches Leaf::Repeat {
            prefix: mapped,
            times: as_often,
            suffix: rest,
        } && times == as_often && leaf_maps(rel, *prefix, *mapped) && leaves_map(
            rel,
            suffix.leaves@,
            rest.leaves@,
        ),
        Leaf::Raw(x) => b matches Leaf::Raw(y) && x@ == y@,
        Leaf::Class(c) => b matches Leaf::Class(d) && same_class(c, d),
        Leaf::AnchorStart => b is AnchorStart,
        Leaf::AnchorEnd => b is AnchorEnd,
    }
}

/// Whether the leaves of `b` are those of `a`, mapped one by one.
pub open spec fn leaves_map<In, Out>(
    rel: spec_fn(In, Out) -> bool,
    a: Seq<Leaf<In>>,
    b: Seq<Leaf<Out>>,
) -> bool
    decreases a,
{
    &&& a.len() == b.len()
    &&& forall|i: int| 0 <= i < a.len() ==> leaf_maps(rel, #[trigger] a[i], b[i])
}

/// Whether group `b` is group `a` with its payloads mapped.
pub open spec fn group_maps<In, Out>(rel: spec_fn(In, Out) -> bool, a: Group<In>, b: Group<Out>) -> bool
    decreases a,
{
    &&& a.number == b.number
    &&& branches_map(rel, a.branches@, b.branches@)
}

/// Whether the branches of `b` are those of `a`, mapped one by one.
pub open spec fn branches_map<In, Out>(
    rel: spec_fn(In, Out) -> bool,
    a: Seq<Branch<In>>,
    b: Seq<Branch<Out>>,
) -> bool
    decreases a,
{
    &&& a.len() == b.len()
    &&& forall|i: int| 0 <= i < a.len() ==> leaves_map(rel, (#[trigger] a[i]).leaves@, b[i].leaves@)
}

/// Whether pattern `b` is pattern `a` with its payloads mapped.
pub open spec fn ast_maps<In, Out>(rel: spec_fn(In, Out) -> bool, a: Ast<In>, b: Ast<Out>) -> bool {
    &&& a.ignore_case == b.ignore_case
    &&& group_maps(rel, a.root, b.root)
}

/// Whether a leaf holds the payload `p`.
pub open spec fn leaf_holds<In>(a: Leaf<In>, p: In) -> bool
    decreases a,
{
    match a {
        Leaf::Payload(q) => p == q,
        Leaf::Group(g) => group_holds(g, p),
        Leaf::Repeat { prefix, times, suffix } => leaf_holds(*prefix, p) || leaves_hold(
            suffix.leaves@,
            p,
        ),
        _ => false,
    }
}

/// Whether one of the leaves holds the payload `p`.
pub open spec fn leaves_hold<In>(a: Seq<Leaf<In>>, p: In) -> bool
    decreases a,
{
    exists|i: int| 0 <= i < a.len() && leaf_holds(#[trigger] a[i], p)
}

/// Whether a group holds the payload `p`.
pub open spec fn group_holds<In>(a: Group<In>, p: In) -> bool
    decreases a,
{
    exists|i: int| 0 <= i < a.branches@.len() && leaves_hold((#[trigger] a.branches@[i]).leaves@, p)
}

/// Whether `f` may refuse the payload `p` with the error `e`.
pub open spec fn refused_by<In, Out, E, F: Fn(&In) -> Result<Out, E>>(f: F, p: In, e: E) -> bool {
    f.ensures((&p,), Err::<Out, E>(e))
}

/// Whether `e` is an error that `f` may give for a payload of the leaf.
pub open spec fn leaf_refused<In, Out, E, F: Fn(&In) -> Result<Out, E>>(f: F, a: Leaf<In>, e: E) -> bool {
    exists|p: In| leaf_holds(a, p) && #[trigger] refused_by::<In, Out, E, F>(f, p, e)
}

/// Whether `e` is an error that `f` may give for a payload of the leaves.
pub open spec fn leaves_refused<In, Out, E, F: Fn(&In) -> Result<Out, E>>(
    f: F,
    a: Seq<Leaf<In>>,
    e: E,
) -> bool {
    exists|p: In| leaves_hold(a, p) && #[trigger] refused_by::<In, Out, E, F>(f, p, e)
}

/// Whether `e` is an error that `f` may give for a payload of the group.
pub open spec fn group_refused<In, Out, E, F: Fn(&In) -> Result<Out, E>>(f: F, a: Group<In>, e: E) -> bool {
    exists|p: In| group_holds(a, p) && #[trigger] refused_by::<In, Out, E, F>(f, p, e)
}

/// Whether `f` may accept the payload `p`.
pub open spec fn accepted_by<In, Out, E, F: Fn(&In) -> Result<Out, E>>(f: F, p: In) -> bool {
    exists|q: Out| #[trigger] f.ensures((&p,), Ok::<Out, E>(q))
}

/// The payloads that `f` may accept.
pub open spec fn accepts<In, Out, E, F: Fn(&In) -> Result<Out, E>>(f: F) -> spec_fn(In) -> bool {
    |p: In| accepted_by::<In, Out, E, F>(f, p)
}

/// The payloads that `f` may refuse, each with its error.
pub open spec fn refuses<In, Out, E, F: Fn(&In) -> Result<Out, E>>(f: F) -> spec_fn(In, E) -> bool {
    |p: In, e: E| refused_by::<In, Out, E, F>(f, p, e)
}

/// Whether `ok` holds of every payload of the leaf.
pub open spec fn leaf_passes<In>(ok: spec_fn(In) -> bool, a: Leaf<In>) -> bool {
    forall|p: In| #[trigger] leaf_holds(a, p) ==> ok(p)
}

/// Whether `ok` holds of every payload of the leaves.
pub open spec fn leaves_pass<In>(ok: spec_fn(In) -> bool, a: Seq<Leaf<In>>) -> bool {
    forall|p: In| #[trigger] leaves_hold(a, p) ==> ok(p)
}

/// Whether `ok` holds of every payload of the group.
pub open spec fn group_passes<In>(ok: spec_fn(In) -> bool, a: Group<In>) -> bool {
    forall|p: In| #[trigger] group_holds(a, p) ==> ok(p)
}

/// Whether `e` is the error of the first payload of the leaf, in reading
/// order, that is refused: `bad` relates that payload to `e`, and `ok`
/// holds of every payload before it.
pub open spec fn leaf_stops<In, E>(
    ok: spec_fn(In) -> bool,
    bad: spec_fn(In, E) -> bool,
    a: Leaf<In>,
    e: E,
) -> bool
    decreases a,
{
    match a {
        Leaf::Payload(p) => bad(p, e),
        Leaf::Group(g) => group_stops(ok, bad, g, e),
        Leaf::Repeat { prefix, times, suffix } => leaf_stops(ok, bad, *prefix, e) || (leaf_passes(
            ok,
            *prefix,
        ) && leaves_stop(ok, bad, suffix.leaves@, e)),
        _ => false,
    }
}

/// Whether `e` is the error of the first payload of the leaves that is
/// refused: it is that of one leaf, and every leaf before it passes.
pub open spec fn leaves_stop<In, E>(
    ok: spec_fn(In) -> bool,
    bad: spec_fn(In, E) -> bool,
    a: Seq<Leaf<In>>,
    e: E,
) -> bool
    decreases a,
{
    exists|k: int|
        0 <= k < a.len() && leaf_stops(ok, bad, #[trigger] a[k], e) && forall|j: int|
            0 <= j < k ==> leaf_passes(ok, #[trigger] a[j])
}

/// Whether `e` is the error of the first payload of the group that is
/// refused: it is that of one branch, and every branch before it passes.
pub open spec fn group_stops<In, E>(
    ok: spec_fn(In) -> bool,
    bad: spec_fn(In, E) -> bool,
    a: Group<In>,
    e: E,
) -> bool
    decreases a,
{
    exists|k: int|
        0 <= k < a.branches@.len() && leaves_stop(ok, bad, (#[trigger] a.branches@[k]).leaves@, e)
            && forall|j: int| 0 <= j < k ==> leaves_pass(ok, (#[trigger] a.branches@[j]).leaves@)
}

/// The relation between a payload and what `f` makes of it.
pub open spec fn made_by<In, Out, E, F: Fn(&In) -> Result<Out, E>>(f: F) -> spec_fn(In, Out) -> bool {
    |p: In, q: Out| f.ensures((&p,), Ok(q))
}

/// A copy of a class.
fn copy_class(class: &Class) -> (r: Class)
    ensures
        same_class(*class, r),
{
    match class {
        Class::Dot => Class::Dot,
        Class::Digit => Class::Digit,
        Class::Word => Class::Word,
        Class::Space => Class::Space,
        Class::Custom { invert, members } => {
            let mut copy: Vec<Member> = Vec::new();
            let mut i: usize = 0;
            while i < members.len()
                invariant
                    i <= members.len(),
                    copy@ == members@.take(i as int),
                decreases members.len() - i,
            {
                copy.push(members[i]);
                i = i + 1;
            }
            assert(copy@ =~= members@);
            Class::Custom { invert: *invert, members: copy }
        },
    }
}

impl<In> Ast<In> {
    /// Replaces every payload of the pattern by what `f` makes of it, in
    /// reading order. The result is the pattern with its payloads mapped.
    /// An error is the one that `f` gave for the first payload that it
    /// refused, every payload before it having been accepted; so a pattern
    /// whose payloads `f` all accepts is mapped.
    pub fn map<Out, E, F: Fn(&In) -> Result<Out, E>>(&self, f: &F) -> (r: Result<Ast<Out>, E>)
        requires
            forall|p: In| #[trigger] group_holds(self.root, p) ==> f.requires((&p,)),
        ensures
            r matches Ok(b) ==> ast_maps(made_by(*f), *self, b),
            r is Ok ==> group_passes(accepts(*f), self.root),
            r matches Err(e) ==> group_refused::<In, Out, E, F>(*f, self.root, e),
            r matches Err(e) ==> group_stops(accepts(*f), refuses(*f), self.root, e),
    {
        match self.root.map(f) {
            Ok(root) => Ok(Ast { root, ignore_case: self.ignore_case }),
            Err(e) => {
                proof {
                    let p = choose|p: In| group_holds(self.root, p) && #[trigger] refused_by::<In, Out, E, F>(*f, p, e);
                    assert(group_holds(self.root, p));
                }
                Err(e)
            },
        }
    }
}

impl<In> Group<In> {
    /// Maps the payloads of a group, branch by branch.
    pub fn map<Out, E, F: Fn(&In) -> Result<Out, E>>(&self, f: &F) -> (r: Result<Group<Out>, E>)
        requires
            forall|p: In| #[trigger] group_holds(*self, p) ==> f.requires((&p,)),
        ensures
            r matches Ok(b) ==> group_maps(made_by(*f), *self, b),
            r is Ok ==> group_passes(accepts(*f), *self),
            r matches Err(e) ==> group_refused::<In, Out, E, F>(*f, *self, e),
            r matches Err(e) ==> group_stops(accepts(*f), refuses(*f), *self, e),
        decreases *self,
    {
        let mut branches: Vec<Branch<Out>> = Vec::new();
        let mut i: usize = 0;
        while i < self.branches.len()
            invariant
                i <= self.branches.len(),
                branches.len() == i,
                forall|p: In| #[trigger] group_holds(*self, p) ==> f.requires((&p,)),
                forall|j: int|
                    0 <= j < i ==> leaves_map(
                        made_by(*f),
                        (#[trigger] self.branches@[j]).leaves@,
                        branches@[j].leaves@,
                    ),
                forall|j: int|
                    0 <= j < i ==> leaves_pass(accepts(*f), (#[trigger] self.branches@[j]).leaves@),
            decreases self.branches.len() - i,
        {
            proof {
                assert forall|p: In| #[trigger]
                    leaves_hold(self.branches@[i as int].leaves@, p) implies f.requires((&p,)) by {
                    assert(group_holds(*self, p));
                }
            }
            match map_leaves(&self.branches[i].leaves, f) {
                Ok(leaves) => {
                    branches.push(Branch { leaves });
                },
                Err(e) => {
                    proof {
                        let p = choose|p: In|
                            leaves_hold(self.branches@[i as int].leaves@, p) && #[trigger] refused_by::<In, Out, E, F>(*f, p, e);
                        assert(leaves_hold(self.branches@[i as int].leaves@, p));
                        assert(group_holds(*self, p));
                        assert(leaves_stop(
                            accepts(*f),
                            refuses(*f),
                            self.branches@[i as int].leaves@,
                            e,
                        ));
                    }
                    return Err(e);
                },
            }
            i = i + 1;
        }
        proof {
            assert forall|p: In| #[trigger] group_holds(*self, p) implies accepts(*f)(p) by {
                let k = choose|k: int|
                    0 <= k < self.branches@.len() && leaves_hold(
                        (#[trigger] self.branches@[k]).leaves@,
                        p,
                    );
                assert(leaves_pass(accepts(*f), self.branches@[k].leaves@));
            }
        }
        Ok(Group { number: self.number, branches })
    }
}

/// Maps the payloads of a run of leaves, leaf by leaf.
fn map_leaves<In, Out, E, F: Fn(&In) -> Result<Out, E>>(leaves: &Vec<Leaf<In>>, f: &F) -> (r: Result<
    Vec<Leaf<Out>>,
    E,
>)
    requires
        forall|p: In| #[trigger] leaves_hold(leaves@, p) ==> f.requires((&p,)),
    ensures
        r matches Ok(b) ==> leaves_map(made_by(*f), leaves@, b@),
        r is Ok ==> leaves_pass(accepts(*f), leaves@),
        r matches Err(e) ==> leaves_refused::<In, Out, E, F>(*f, leaves@, e),
        r matches Err(e) ==> leaves_stop(accepts(*f), refuses(*f), leaves@, e),
    decreases leaves@,
{
    let mut out: Vec<Leaf<Out>> = Vec::new();
    let mut i: usize = 0;
    while i < leaves.len()
        invariant
            i <= leaves.len(),
            out.len() == i,
            forall|p: In| #[trigger] leaves_hold(leaves@, p) ==> f.requires((&p,)),
            forall|j: int| 0 <= j < i ==> leaf_maps(made_by(*f), #[trigger] leaves@[j], out@[j]),
            forall|j: int| 0 <= j < i ==> leaf_passes(accepts(*f), #[trigger] leaves@[j]),
        decreases leaves.len() - i,
    {
        proof {
            assert forall|p: In| #[trigger] leaf_holds(leaves@[i as int], p) implies f.requires(
                (&p,),
            ) by {
                assert(leaves_hold(leaves@, p));
            }
        }
        match leaves[i].map(f) {
            Ok(leaf) => {
                out.push(leaf);
            },
            Err(e) => {
                proof {
                    let p = choose|p: In|
                        leaf_holds(leaves@[i as int], p) && #[trigger] refused_by::<In, Out, E, F>(*f, p, e);
                    assert(leaf_holds(leaves@[i as int], p));
                    assert(leaves_hold(leaves@, p));
                    assert(leaf_stops(accepts(*f), refuses(*f), leaves@[i as int], e));
                }
                return Err(e);
            },
        }
        i = i + 1;
    }
    proof {
        assert forall|p: In| #[trigger] leaves_hold(leaves@, p) implies accepts(*f)(p) by {
            let k = choose|k: int| 0 <= k < leaves@.len() && leaf_holds(#[trigger] leaves@[k], p);
            assert(leaf_passes(accepts(*f), leaves@[k]));
        }
    }
    Ok(out)
}

impl<In> Leaf<In> {
    /// Maps the payloads of a leaf: of a repetition, those of what is
    /// repeated before those of what follows it.
    pub fn map<Out, E, F: Fn(&In) -> Result<Out, E>>(&self, f: &F) -> (r: Result<Leaf<Out>, E>)
        requires
            forall|p: In| #[trigger] leaf_holds(*self, p) ==> f.requires((&p,)),
        ensures
            r matches Ok(b) ==> leaf_maps(made_by(*f), *self, b),
            r is Ok ==> leaf_passes(accepts(*f), *self),
            r matches Err(e) ==> leaf_refused::<In, Out, E, F>(*f, *self, e),
            r matches Err(e) ==> leaf_stops(accepts(*f), refuses(*f), *self, e),
        decreases *self,
    {
        match self {
            Leaf::Payload(var) => {
                assert(leaf_holds(*self, *var));
                match f(var) {
                Ok(out) => {
                    assert(accepted_by::<In, Out, E, F>(*f, *var)) by {
                        assert(f.ensures((var,), Ok::<Out, E>(out)));
                    }
                    assert forall|p: In| #[trigger] leaf_holds(*self, p) implies accepts(*f)(p) by {
                        assert(p == *var);
                    }
                    Ok(Leaf::Payload(out))
                },
                Err(e) => {
                    proof {
                        assert(leaf_holds(*self, *var));
                        assert(refused_by::<In, Out, E, F>(*f, *var, e));
                    }
                    Err(e)
                },
                }
            },
            Leaf::Group(group) => match {
                proof {
                    assert forall|p: In| #[trigger] group_holds(*group, p) implies f.requires(
                        (&p,),
                    ) by {
                        assert(leaf_holds(*self, p));
                    }
                }
                group.map(f)
            } {
                Ok(mapped) => {
                    assert forall|p: In| #[trigger] leaf_holds(*self, p) implies accepts(*f)(p) by {
                        assert(group_holds(*group, p));
                    }
                    Ok(Leaf::Group(mapped))
                },
                Err(e) => {
                    proof {
                        let p = choose|p: In| group_holds(*group, p) && #[trigger] refused_by::<In, Out, E, F>(*f, p, e);
                        assert(leaf_holds(*self, p));
                    }
                    Err(e)
                },
            },
            Leaf::Repeat { prefix, times, suffix } => {
                proof {
                    assert forall|p: In| #[trigger] leaf_holds(**prefix, p) implies f.requires(
                        (&p,),
                    ) by {
                        assert(leaf_holds(*self, p));
                    }
                    assert forall|p: In| #[trigger]
                        leaves_hold(suffix.leaves@, p) implies f.requires((&p,)) by {
                        assert(leaf_holds(*self, p));
                    }
                }
                let mapped = match prefix.map(f) {
                    Ok(mapped) => mapped,
                    Err(e) => {
                        proof {
                            let p = choose|p: In|
                                leaf_holds(**prefix, p) && #[trigger] refused_by::<In, Out, E, F>(*f, p, e);
                            assert(leaf_holds(*self, p));
                        }
                        return Err(e);
                    },
                };
                let leaves = match map_leaves(&suffix.leaves, f) {
                    Ok(leaves) => leaves,
                    Err(e) => {
                        proof {
                            let p = choose|p: In|
                                leaves_hold(suffix.leaves@, p) && #[trigger] refused_by::<In, Out, E, F>(*f, p, e);
                            assert(leaf_holds(*self, p));
                        }
                        return Err(e);
                    },
                };
                assert forall|p: In| #[trigger] leaf_holds(*self, p) implies accepts(*f)(p) by {
                    if leaf_holds(**prefix, p) {
                        assert(leaf_passes(accepts(*f), **prefix));
                    } else {
                        assert(leaves_hold(suffix.leaves@, p));
                    }
                }
                Ok(Leaf::Repeat { prefix: Box::new(mapped), times: *times, suffix: Branch { leaves } })
            },
            Leaf::Raw(string) => Ok(Leaf::Raw(string.clone())),
            Leaf::Class(class) => Ok(Leaf::Class(copy_class(class))),
            Leaf::AnchorStart => Ok(Leaf::AnchorStart),
            Leaf::AnchorEnd => Ok(Leaf::AnchorEnd),
        }
    }
}

/// A pattern that is ready to match: every variable has been replaced by the
/// text it held when the pattern was specialized.
#[derive(Debug, PartialEq, Eq)]
pub struct Compiled {
    pub ast: Ast<String>,
}

/// Two texts are alike when they hold the same code points.
pub open spec fn same_text() -> spec_fn(String, String) -> bool {
    |a: String, b: String| a@ == b@
}

impl Compiled {
    /// Searches `haystack` for the leftmost match of the pattern. The spans
    /// of the captures are byte offsets into `haystack`: each starts no
    /// later than it ends, and ends within the text.
    pub fn matches(&self, haystack: &str) -> (r: Option<Captures>)
        ensures
            r is Some == first_match(*self, haystack@, 0) is Some,
            r matches Some(c) ==> c@ == in_bytes(first_match(*self, haystack@, 0)->0, haystack@),
            r matches Some(c) ==> spans_within(c@, encode_utf8(haystack@).len() as int),
    {
        Eval::new(self, haystack).eval()
    }
}

impl Ast<String> {
    /// Makes a matcher of a pattern whose payloads are plain text. The
    /// matcher's pattern is this pattern, text for text.
    pub fn translate(&self) -> (c: Compiled)
        ensures
            ast_maps(same_text(), *self, c.ast),
    {
        let copy = |s: &String| -> (r: Result<String, ()>)
            ensures
                r matches Ok(t) && t@ == s@,
            { Ok(s.clone()) };
        let mapped = self.map(&copy);
        proof {
            if mapped is Ok {
                group_maps_weaken(made_by(copy), same_text(), self.root, mapped->Ok_0.root);
            } else {
                let p = choose|p: String| #[trigger]
                    refused_by::<String, String, (), _>(copy, p, mapped->Err_0);
                assert(false);
            }
        }
        Compiled { ast: mapped.unwrap() }
    }
}

/// A mapping that holds for a relation holds for every weaker one.
pub proof fn leaf_maps_weaken<In, Out>(
    rel: spec_fn(In, Out) -> bool,
    weaker: spec_fn(In, Out) -> bool,
    a: Leaf<In>,
    b: Leaf<Out>,
)
    requires
        leaf_maps(rel, a, b),
        forall|p: In, q: Out| #[trigger] rel(p, q) ==> weaker(p, q),
    ensures
        leaf_maps(weaker, a, b),
    decreases a,
{
    match a {
        Leaf::Group(g) => {
            group_maps_weaken(rel, weaker, g, b->Group_0);
        },
        Leaf::Repeat { prefix, times, suffix } => {
            leaf_maps_weaken(rel, weaker, *prefix, *b->prefix);
            leaves_map_weaken(rel, weaker, suffix.leaves@, b->suffix.leaves@);
        },
        _ => {},
    }
}

/// A mapping of leaves that holds for a relation holds for every weaker one.
pub proof fn leaves_map_weaken<In, Out>(
    rel: spec_fn(In, Out) -> bool,
    weaker: spec_fn(In, Out) -> bool,
    a: Seq<Leaf<In>>,
    b: Seq<Leaf<Out>>,
)
    requires
        leaves_map(rel, a, b),
        forall|p: In, q: Out| #[trigger] rel(p, q) ==> weaker(p, q),
    ensures
        leaves_map(weaker, a, b),
    decreases a,
{
    assert forall|i: int| 0 <= i < a.len() implies leaf_maps(weaker, #[trigger] a[i], b[i]) by {
        leaf_maps_weaken(rel, weaker, a[i], b[i]);
    }
}

/// A mapping of a group that holds for a relation holds for every weaker one.
pub proof fn group_maps_weaken<In, Out>(
    rel: spec_fn(In, Out) -> bool,
    weaker: spec_fn(In, Out) -> bool,
    a: Group<In>,
    b: Group<Out>,
)
    requires
        group_maps(rel, a, b),
        forall|p: In, q: Out| #[trigger] rel(p, q) ==> weaker(p, q),
    ensures
        group_maps(weaker, a, b),
    decreases a,
{
    assert forall|i: int| 0 <= i < a.branches@.len() implies leaves_map(
        weaker,
        (#[trigger] a.branches@[i]).leaves@,
        b.branches@[i].leaves@,
    ) by {
        leaves_map_weaken(rel, weaker, a.branches@[i].leaves@, b.branches@[i].leaves@);
    }
}

/// A mapping carries over to the values: where the relation says that the
/// new payload has the value that `pv` gives the old one, the mapped leaf has
/// the value of the old leaf under `pv`.
pub proof fn leaf_maps_view<In, Out, Q>(
    rel: spec_fn(In, Out) -> bool,
    pv: spec_fn(In) -> Q,
    qv: spec_fn(Out) -> Q,
    a: Leaf<In>,
    b: Leaf<Out>,
)
    requires
        leaf_maps(rel, a, b),
        forall|p: In, q: Out| #[trigger] rel(p, q) ==> qv(q) == pv(p),
    ensures
        leaf_view(qv, b) == leaf_view(pv, a),
    decreases a,
{
    match a {
        Leaf::Group(g) => {
            group_maps_view(rel, pv, qv, g, b->Group_0);
        },
        Leaf::Repeat { prefix, times, suffix } => {
            leaf_maps_view(rel, pv, qv, *prefix, *b->prefix);
            leaves_map_view(rel, pv, qv, suffix.leaves@, b->suffix.leaves@);
        },
        Leaf::Class(c) => {
            assert(class_view(c) == class_view(b->Class_0));
        },
        _ => {},
    }
}

/// A mapping of leaves carries over to their values.
pub proof fn leaves_map_view<In, Out, Q>(
    rel: spec_fn(In, Out) -> bool,
    pv: spec_fn(In) -> Q,
    qv: spec_fn(Out) -> Q,
    a: Seq<Leaf<In>>,
    b: Seq<Leaf<Out>>,
)
    requires
        leaves_map(rel, a, b),
        forall|p: In, q: Out| #[trigger] rel(p, q) ==> qv(q) == pv(p),
    ensures
        leaves_view(qv, b) == leaves_view(pv, a),
    decreases a,
{
    leaves_view_index(pv, a);
    leaves_view_index(qv, b);
    assert forall|i: int| 0 <= i < a.len() implies leaves_view(qv, b)[i] == leaves_view(pv, a)[i] by {
        leaf_maps_view(rel, pv, qv, a[i], b[i]);
    }
    assert(leaves_view(qv, b) =~= leaves_view(pv, a));
}

/// A mapping of a group carries over to its value.
pub proof fn group_maps_view<In, Out, Q>(
    rel: spec_fn(In, Out) -> bool,
    pv: spec_fn(In) -> Q,
    qv: spec_fn(Out) -> Q,
    a: Group<In>,
    b: Group<Out>,
)
    requires
        group_maps(rel, a, b),
        forall|p: In, q: Out| #[trigger] rel(p, q) ==> qv(q) == pv(p),
    ensures
        group_view(qv, b) == group_view(pv, a),
    decreases a,
{
    branches_view_index(pv, a.branches@);
    branches_view_index(qv, b.branches@);
    assert forall|i: int| 0 <= i < a.branches@.len() implies branches_view(qv, b.branches@)[i]
        == branches_view(pv, a.branches@)[i] by {
        leaves_map_view(rel, pv, qv, a.branches@[i].leaves@, b.branches@[i].leaves@);
    }
    assert(branches_view(qv, b.branches@) =~= branches_view(pv, a.branches@));
}

/// What a relation says of every payload that it maps holds of every
/// payload of a mapped leaf.
pub proof fn leaf_maps_payloads<In, Out>(
    rel: spec_fn(In, Out) -> bool,
    good: spec_fn(In) -> bool,
    a: Leaf<In>,
    b: Leaf<Out>,
    p: In,
)
    requires
        leaf_maps(rel, a, b),
        leaf_holds(a, p),
        forall|x: In, q: Out| #[trigger] rel(x, q) ==> good(x),
    ensures
        good(p),
    decreases a,
{
    match a {
        Leaf::Group(g) => {
            group_maps_payloads(rel, good, g, b->Group_0, p);
        },
        Leaf::Repeat { prefix, times, suffix } => {
            if leaf_holds(*prefix, p) {
                leaf_maps_payloads(rel, good, *prefix, *b->prefix, p);
            } else {
                leaves_map_payloads(rel, good, suffix.leaves@, b->suffix.leaves@, p);
            }
        },
        _ => {},
    }
}

/// What a relation says of every payload that it maps holds of every
/// payload of mapped leaves.
pub proof fn leaves_map_payloads<In, Out>(
    rel: spec_fn(In, Out) -> bool,
    good: spec_fn(In) -> bool,
    a: Seq<Leaf<In>>,
    b: Seq<Leaf<Out>>,
    p: In,
)
    requires
        leaves_map(rel, a, b),
        leaves_hold(a, p),
        forall|x: In, q: Out| #[trigger] rel(x, q) ==> good(x),
    ensures
        good(p),
    decreases a,
{
    let i = choose|i: int| 0 <= i < a.len() && leaf_holds(#[trigger] a[i], p);
    leaf_maps_payloads(rel, good, a[i], b[i], p);
}

/// What a relation says of every payload that it maps holds of every
/// payload of a mapped group.
pub proof fn group_maps_payloads<In, Out>(
    rel: spec_fn(In, Out) -> bool,
    good: spec_fn(In) -> bool,
    a: Group<In>,
    b: Group<Out>,
    p: In,
)
    requires
        group_maps(rel, a, b),
        group_holds(a, p),
        forall|x: In, q: Out| #[trigger] rel(x, q) ==> good(x),
    ensures
        good(p),
    decreases a,
{
    let i = choose|i: int|
        0 <= i < a.branches@.len() && leaves_hold((#[trigger] a.branches@[i]).leaves@, p);
    leaves_map_payloads(rel, good, a.branches@[i].leaves@, b.branches@[i].leaves@, p);
}

/// Two mappings of one leaf agree: where two payloads that the relation
/// gives one payload are alike, the two mapped leaves are alike.
pub proof fn leaf_maps_agree<In, Out>(
    rel: spec_fn(In, Out) -> bool,
    alike: spec_fn(Out, Out) -> bool,
    a: Leaf<In>,
    b: Leaf<Out>,
    c: Leaf<Out>,
)
    requires
        leaf_maps(rel, a, b),
        leaf_maps(rel, a, c),
        forall|p: In, q: Out, r: Out| #[trigger] rel(p, q) && #[trigger] rel(p, r) ==> alike(q, r),
    ensures
        leaf_maps(alike, b, c),
    decreases a,
{
    match a {
        Leaf::Group(g) => {
            group_maps_agree(rel, alike, g, b->Group_0, c->Group_0);
        },
        Leaf::Repeat { prefix, times, suffix } => {
            leaf_maps_agree(rel, alike, *prefix, *b->prefix, *c->prefix);
            leaves_map_agree(rel, alike, suffix.leaves@, b->suffix.leaves@, c->suffix.leaves@);
        },
        _ => {},
    }
}

/// Two mappings of the same leaves agree.
pub proof fn leaves_map_agree<In, Out>(
    rel: spec_fn(In, Out) -> bool,
    alike: spec_fn(Out, Out) -> bool,
    a: Seq<Leaf<In>>,
    b: Seq<Leaf<Out>>,
    c: Seq<Leaf<Out>>,
)
    requires
        leaves_map(rel, a, b),
        leaves_map(rel, a, c),
        forall|p: In, q: Out, r: Out| #[trigger] rel(p, q) && #[trigger] rel(p, r) ==> alike(q, r),
    ensures
        leaves_map(alike, b, c),
    decreases a,
{
    assert forall|i: int| 0 <= i < b.len() implies leaf_maps(alike, #[trigger] b[i], c[i]) by {
        leaf_maps_agree(rel, alike, a[i], b[i], c[i]);
    }
}

/// Two mappings of one group agree.
pub proof fn group_maps_agree<In, Out>(
    rel: spec_fn(In, Out) -> bool,
    alike: spec_fn(Out, Out) -> bool,
    a: Group<In>,
    b: Group<Out>,
    c: Group<Out>,
)
    requires
        group_maps(rel, a, b),
        group_maps(rel, a, c),
        forall|p: In, q: Out, r: Out| #[trigger] rel(p, q) && #[trigger] rel(p, r) ==> alike(q, r),
    ensures
        group_maps(alike, b, c),
    decreases a,
{
    assert forall|i: int| 0 <= i < b.branches@.len() implies leaves_map(
        alike,
        (#[trigger] b.branches@[i]).leaves@,
        c.branches@[i].leaves@,
    ) by {
        leaves_map_agree(
            rel,
            alike,
            a.branches@[i].leaves@,
            b.branches@[i].leaves@,
            c.branches@[i].leaves@,
        );
    }
}

/// Where the variables of a pattern get their text: the locals by their
/// slots, the globals by their names.
pub trait Env {
    /// The text of the local in a slot, if the slot holds a local.
    spec fn local(&self, slot: usize) -> Option<Seq<char>>;

    /// The text of the global of a name, if there is one.
    spec fn global(&self, name: Seq<char>) -> Option<Seq<char>>;

    /// Reads the text of the local in a slot.
    fn read_local(&self, slot: usize) -> (r: Option<Str>)
        ensures
            match self.local(slot) {
                Some(text) => r matches Some(s) && s@ == text,
                None => r is None,
            },
    ;

    /// Reads the text of the global of a name.
    fn read_global(&self, name: &Ident) -> (r: Option<Str>)
        ensures
            match self.global(name@) {
                Some(text) => r matches Some(s) && s@ == text,
                None => r is None,
            },
    ;
}

/// The text that a variable of a pattern stands for in an environment: a
/// slot without a local and a name without a global have none.
pub open spec fn bound<E: Env>(env: E, var: Var<usize>) -> Result<Seq<char>, Error> {
    match var {
        Var::Local { name } => match env.local(name) {
            Some(text) => Ok(text),
            None => Err(Error::LocalVarOutOfBounds { index: name }),
        },
        Var::Global { name } => match env.global(name@) {
            Some(text) => Ok(text),
            None => Err(Error::NoSuchGlobal),
        },
    }
}

/// The relation between a variable of a pattern and the text that stands
/// for it in an environment.
pub open spec fn binding<E: Env>(env: E) -> spec_fn(Var<usize>, String) -> bool {
    |v: Var<usize>, t: String| bound(env, v) == Ok::<Seq<char>, Error>(t@)
}

/// The variables that have a text in an environment.
pub open spec fn with_text<E: Env>(env: E) -> spec_fn(Var<usize>) -> bool {
    |v: Var<usize>| bound(env, v) is Ok
}

/// The variables that have no text in an environment, each with the reason.
pub open spec fn without_text<E: Env>(env: E) -> spec_fn(Var<usize>, Error) -> bool {
    |v: Var<usize>, e: Error| bound(env, v) == Err::<Seq<char>, Error>(e)
}

/// Whether `e` is the reason for which the first variable of a pattern, in
/// reading order, that has no text in an environment has none.
pub open spec fn unbound<E: Env>(env: E, pat: Ast<Var<usize>>, e: Error) -> bool {
    group_stops(with_text(env), without_text(env), pat.root, e)
}

/// A first refusal stays one under conditions that the accepted payloads
/// and the refused ones meet as well.
pub proof fn leaf_stops_weaken<In, E>(
    ok: spec_fn(In) -> bool,
    bad: spec_fn(In, E) -> bool,
    weaker_ok: spec_fn(In) -> bool,
    weaker_bad: spec_fn(In, E) -> bool,
    a: Leaf<In>,
    e: E,
)
    requires
        leaf_stops(ok, bad, a, e),
        forall|p: In| #[trigger] ok(p) ==> weaker_ok(p),
        forall|p: In, x: E| #[trigger] bad(p, x) ==> weaker_bad(p, x),
    ensures
        leaf_stops(weaker_ok, weaker_bad, a, e),
    decreases a,
{
    match a {
        Leaf::Group(g) => {
            group_stops_weaken(ok, bad, weaker_ok, weaker_bad, g, e);
        },
        Leaf::Repeat { prefix, times, suffix } => {
            if leaf_stops(ok, bad, *prefix, e) {
                leaf_stops_weaken(ok, bad, weaker_ok, weaker_bad, *prefix, e);
            } else {
                leaves_stop_weaken(ok, bad, weaker_ok, weaker_bad, suffix.leaves@, e);
            }
        },
        _ => {},
    }
}

/// The same for a run of leaves.
pub proof fn leaves_stop_weaken<In, E>(
    ok: spec_fn(In) -> bool,
    bad: spec_fn(In, E) -> bool,
    weaker_ok: spec_fn(In) -> bool,
    weaker_bad: spec_fn(In, E) -> bool,
    a: Seq<Leaf<In>>,
    e: E,
)
    requires
        leaves_stop(ok, bad, a, e),
        forall|p: In| #[trigger] ok(p) ==> weaker_ok(p),
        forall|p: In, x: E| #[trigger] bad(p, x) ==> weaker_bad(p, x),
    ensures
        leaves_stop(weaker_ok, weaker_bad, a, e),
    decreases a,
{
    let k = choose|k: int|
        0 <= k < a.len() && leaf_stops(ok, bad, #[trigger] a[k], e) && forall|j: int|
            0 <= j < k ==> leaf_passes(ok, #[trigger] a[j]);
    leaf_stops_weaken(ok, bad, weaker_ok, weaker_bad, a[k], e);
    assert forall|j: int| 0 <= j < k implies leaf_passes(weaker_ok, #[trigger] a[j]) by {
        assert(leaf_passes(ok, a[j]));
    }
}

/// The same for a group.
pub proof fn group_stops_weaken<In, E>(
    ok: spec_fn(In) -> bool,
    bad: spec_fn(In, E) -> bool,
    weaker_ok: spec_fn(In) -> bool,
    weaker_bad: spec_fn(In, E) -> bool,
    a: Group<In>,
    e: E,
)
    requires
        group_stops(ok, bad, a, e),
        forall|p: In| #[trigger] ok(p) ==> weaker_ok(p),
        forall|p: In, x: E| #[trigger] bad(p, x) ==> weaker_bad(p, x),
    ensures
        group_stops(weaker_ok, weaker_bad, a, e),
    decreases a,
{
    let k = choose|k: int|
        0 <= k < a.branches@.len() && leaves_stop(ok, bad, (#[trigger] a.branches@[k]).leaves@, e)
            && forall|j: int| 0 <= j < k ==> leaves_pass(ok, (#[trigger] a.branches@[j]).leaves@);
    leaves_stop_weaken(ok, bad, weaker_ok, weaker_bad, a.branches@[k].leaves@, e);
    assert forall|j: int| 0 <= j < k implies leaves_pass(
        weaker_ok,
        (#[trigger] a.branches@[j]).leaves@,
    ) by {
        assert(leaves_pass(ok, a.branches@[j].leaves@));
    }
}

/// The text that a variable of a pattern stands for.
pub fn bind<E: Env>(env: &E, var: &Var<usize>) -> (r: Result<String, Error>)
    ensures
        match bound(*env, *var) {
            Ok(text) => r matches Ok(s) && s@ == text,
            Err(e) => r == Err::<String, Error>(e),
        },
{
    match var {
        Var::Local { name } => match env.read_local(*name) {
            Some(text) => Ok(text),
            None => Err(Error::LocalVarOutOfBounds { index: *name }),
        },
        Var::Global { name } => match env.read_global(name) {
            Some(text) => Ok(text),
            None => Err(Error::NoSuchGlobal),
        },
    }
}

/// Specializes a pattern to the texts that its variables stand for in an
/// environment. The result is the pattern with each variable replaced by
/// its text. It is there exactly when every variable of the pattern has a
/// text; otherwise the error is the reason for which the first of them, in
/// reading order, that has none has none.
pub fn specialize<E: Env>(pat: &Ast<Var<usize>>, env: &E) -> (r: Result<Compiled, Error>)
    ensures
        r matches Ok(c) ==> ast_maps(binding(*env), *pat, c.ast),
        r matches Err(e) ==> unbound(*env, *pat, e),
        r is Ok <==> forall|v: Var<usize>| #[trigger] group_holds(pat.root, v) ==> bound(*env, v) is Ok,
{
    let f = |var: &Var<usize>| -> (r: Result<String, Error>)
        ensures
            match bound(*env, *var) {
                Ok(text) => r matches Ok(s) && s@ == text,
                Err(e) => r == Err::<String, Error>(e),
            },
        { bind(env, var) };
    match pat.map(&f) {
        Ok(ast) => {
            proof {
                group_maps_weaken(made_by(f), binding(*env), pat.root, ast.root);
                assert forall|v: Var<usize>| #[trigger] group_holds(pat.root, v) implies bound(
                    *env,
                    v,
                ) is Ok by {
                    group_maps_payloads(
                        binding(*env),
                        |v: Var<usize>| bound(*env, v) is Ok,
                        pat.root,
                        ast.root,
                        v,
                    );
                }
            }
            Ok(Compiled { ast })
        },
        Err(e) => {
            proof {
                let v = choose|v: Var<usize>|
                    group_holds(pat.root, v) && #[trigger] refused_by::<Var<usize>, String, Error, _>(
                        f,
                        v,
                        e,
                    );
                assert(group_holds(pat.root, v));
                assert(bound(*env, v) == Err::<Seq<char>, Error>(e));
                assert forall|p: Var<usize>| #[trigger] accepts(f)(p) implies with_text(*env)(p) by {
                    let q = choose|q: String| #[trigger] f.ensures((&p,), Ok::<String, Error>(q));
                }
                group_stops_weaken(
                    accepts(f),
                    refuses(f),
                    with_text(*env),
                    without_text(*env),
                    pat.root,
                    e,
                );
            }
            Err(e)
        },
    }
}

/// Specialization is deterministic: two patterns that one pattern is
/// specialized to in one environment are the same pattern, text for text.
pub proof fn specialization_is_deterministic<E: Env>(
    env: E,
    pat: Ast<Var<usize>>,
    first: Compiled,
    second: Compiled,
)
    requires
        ast_maps(binding(env), pat, first.ast),
        ast_maps(binding(env), pat, second.ast),
    ensures
        ast_maps(same_text(), first.ast, second.ast),
{
    group_maps_agree(binding(env), same_text(), pat.root, first.ast.root, second.ast.root);
}

} // verus!
