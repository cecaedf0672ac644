//! The source form of a pattern.

use vstd::prelude::*;
use crate::ident::Ident;
use crate::pattern::compile::Compiled;
use crate::pattern::parse::{Ast, Branch, Class, Group, Leaf, Member, Repeat};
use crate::pattern::Var;
use crate::text::{chars_of, push_char, push_str};

verus! {

/// Whether a code point has a meaning of its own in a pattern.
pub open spec fn is_magic(c: char) -> bool {
    c == '(' || c == ')' || c == '[' || c == ']' || c == '{' || c == '}' || c == '|' || c == '.'
        || c == '?' || c == '+' || c == '*' || c == '/' || c == '^' || c == '$' || c == '\\'
}

/// Tests a code point for having a meaning of its own in a pattern.
pub fn magic(ch: char) -> (b: bool)
    ensures
        b == is_magic(ch),
{
    ch == '(' || ch == ')' || ch == '[' || ch == ']' || ch == '{' || ch == '}' || ch == '|' || ch
        == '.' || ch == '?' || ch == '+' || ch == '*' || ch == '/' || ch == '^' || ch == '$' || ch
        == '\\'
}

/// A literal text with a backslash before each magic code point.
pub open spec fn escaped(s: Seq<char>) -> Seq<char>
    decreases s.len(),
{
    if s.len() == 0 {
        Seq::empty()
    } else if is_magic(s.last()) {
        escaped(s.drop_last()).push('\\').push(s.last())
    } else {
        escaped(s.drop_last()).push(s.last())
    }
}

/// The source form of a quantifier.
pub open spec fn times_text(times: Repeat) -> Seq<char> {
    match times {
        Repeat::OneOrZero => "?"@,
        Repeat::OneOrMore => "+"@,
        Repeat::ZeroOrMore => "*"@,
        Repeat::Count(_) => "{...}"@,
    }
}

/// The source form of one member of a custom class.
pub open spec fn member_text(m: Member) -> Seq<char> {
    match m {
        Member::One(c) => seq![c],
        Member::Range { lo, hi } => seq![lo, '-', hi],
    }
}

/// The source form of the members of a custom class.
pub open spec fn members_text(ms: Seq<Member>) -> Seq<char>
    decreases ms.len(),
{
    if ms.len() == 0 {
        Seq::empty()
    } else {
        members_text(ms.drop_last()) + member_text(ms.last())
    }
}

/// The source form of a class.
pub open spec fn class_text(c: Class) -> Seq<char> {
    match c {
        Class::Dot => "."@,
        Class::Digit => "\\d"@,
        Class::Space => "\\s"@,
        Class::Word => "\\w"@,
        Class::Custom { invert, members } => if invert {
            "[^"@ + members_text(members@) + "]"@
        } else {
            "["@ + members_text(members@) + "]"@
        },
    }
}

/// The source form of a leaf, where `pt` gives the source form of a payload.
pub open spec fn leaf_text<P>(pt: spec_fn(P) -> Seq<char>, l: Leaf<P>) -> Seq<char>
    decreases l,
{
    match l {
        Leaf::Group(g) => "("@ + group_text(pt, g) + ")"@,
        Leaf::Raw(s) => escaped(s@),
        Leaf::AnchorStart => "^"@,
        Leaf::AnchorEnd => "$"@,
        Leaf::Class(c) => class_text(c),
        Leaf::Repeat { prefix, times, suffix } => leaf_text(pt, *prefix) + times_text(times)
            + leaves_text(pt, suffix.leaves@),
        Leaf::Payload(p) => pt(p),
    }
}

/// The source form of a run of leaves.
pub open spec fn leaves_text<P>(pt: spec_fn(P) -> Seq<char>, ls: Seq<Leaf<P>>) -> Seq<char>
    decreases ls, ls.len(),
{
    if ls.len() == 0 {
        Seq::empty()
    } else {
        leaves_text(pt, ls.drop_last()) + leaf_text(pt, ls.last())
    }
}

/// The source form of a group: its branches, separated by `|`.
pub open spec fn group_text<P>(pt: spec_fn(P) -> Seq<char>, g: Group<P>) -> Seq<char>
    decreases g,
{
    branches_text(pt, g.branches@)
}

/// The source form of a run of branches, separated by `|`.
pub open spec fn branches_text<P>(pt: spec_fn(P) -> Seq<char>, bs: Seq<Branch<P>>) -> Seq<char>
    decreases bs, bs.len(),
{
    if bs.len() == 0 {
        Seq::empty()
    } else if bs.len() == 1 {
        leaves_text(pt, bs.last().leaves@)
    } else {
        branches_text(pt, bs.drop_last()) + "|"@ + leaves_text(pt, bs.last().leaves@)
    }
}

/// The source form of a pattern.
pub open spec fn ast_text<P>(pt: spec_fn(P) -> Seq<char>, a: Ast<P>) -> Seq<char> {
    if a.ignore_case {
        "re/"@ + group_text(pt, a.root) + "/i"@
    } else {
        "re/"@ + group_text(pt, a.root) + "/"@
    }
}

/// Whether `f` writes every payload as `pt` says.
pub open spec fn renders<P, F: Fn(&P) -> String>(f: F, pt: spec_fn(P) -> Seq<char>) -> bool {
    &&& forall|p: &P| #[trigger] f.requires((p,))
    &&& forall|p: P, r: String| #[trigger] f.ensures((&p,), r) ==> r@ == pt(p)
}

/// Appends literal text, with a backslash before each character that would
/// otherwise be read as syntax.
fn push_escaped(out: &mut String, s: &str)
    ensures
        final(out)@ == old(out)@ + escaped(s@),
{
    let chars = chars_of(s);
    let mut i: usize = 0;
    while i < chars.len()
        invariant
            i <= chars.len(),
            chars@ == s@,
            out@ == old(out)@ + escaped(chars@.take(i as int)),
        decreases chars.len() - i,
    {
        let ch = chars[i];
        proof {
            assert(chars@.take(i + 1).drop_last() =~= chars@.take(i as int));
        }
        if magic(ch) {
            push_char(out, '\\');
        }
        push_char(out, ch);
        i = i + 1;
    }
    assert(chars@.take(chars.len() as int) =~= chars@);
}

/// Appends the members of a class.
fn push_members(out: &mut String, members: &Vec<Member>)
    ensures
        final(out)@ == old(out)@ + members_text(members@),
{
    let mut i: usize = 0;
    while i < members.len()
        invariant
            i <= members.len(),
            out@ == old(out)@ + members_text(members@.take(i as int)),
        decreases members.len() - i,
    {
        proof {
            assert(members@.take(i + 1).drop_last() =~= members@.take(i as int));
        }
        match members[i] {
            Member::One(c) => {
                push_char(out, c);
            },
            Member::Range { lo, hi } => {
                push_char(out, lo);
                push_char(out, '-');
                push_char(out, hi);
            },
        }
        i = i + 1;
    }
    assert(members@.take(members.len() as int) =~= members@);
}

/// Appends a class.
fn push_class(out: &mut String, class: &Class)
    ensures
        final(out)@ == old(out)@ + class_text(*class),
{
    match class {
        Class::Dot => push_str(out, "."),
        Class::Digit => push_str(out, "\\d"),
        Class::Space => push_str(out, "\\s"),
        Class::Word => push_str(out, "\\w"),
        Class::Custom { invert, members } => {
            if *invert {
                push_str(out, "[^");
            } else {
                push_str(out, "[");
            }
            push_members(out, members);
            push_str(out, "]");
        },
    }
}

/// Appends a leaf.
fn push_leaf<P, F: Fn(&P) -> String>(
    out: &mut String,
    leaf: &Leaf<P>,
    f: &F,
    Ghost(pt): Ghost<spec_fn(P) -> Seq<char>>,
)
    requires
        renders(*f, pt),
    ensures
        final(out)@ == old(out)@ + leaf_text(pt, *leaf),
    decreases *leaf,
{
    match leaf {
        Leaf::Group(group) => {
            push_str(out, "(");
            push_group(out, group, f, Ghost(pt));
            push_str(out, ")");
        },
        Leaf::Raw(string) => push_escaped(out, string.as_str()),
        Leaf::AnchorStart => push_str(out, "^"),
        Leaf::AnchorEnd => push_str(out, "$"),
        Leaf::Class(class) => push_class(out, class),
        Leaf::Repeat { prefix, times, suffix } => {
            push_leaf(out, prefix, f, Ghost(pt));
            match times {
                Repeat::OneOrZero => push_str(out, "?"),
                Repeat::OneOrMore => push_str(out, "+"),
                Repeat::ZeroOrMore => push_str(out, "*"),
                Repeat::Count(_) => push_str(out, "{...}"),
            }
            push_leaves(out, &suffix.leaves, f, Ghost(pt));
        },
        Leaf::Payload(p) => {
            let text = f(p);
            push_str(out, text.as_str());
        },
    }
}

/// Appends the leaves of a branch.
fn push_leaves<P, F: Fn(&P) -> String>(
    out: &mut String,
    leaves: &Vec<Leaf<P>>,
    f: &F,
    Ghost(pt): Ghost<spec_fn(P) -> Seq<char>>,
)
    requires
        renders(*f, pt),
    ensures
        final(out)@ == old(out)@ + leaves_text(pt, leaves@),
    decreases leaves@,
{
    let mut i: usize = 0;
    while i < leaves.len()
        invariant
            i <= leaves.len(),
            renders(*f, pt),
            out@ == old(out)@ + leaves_text(pt, leaves@.take(i as int)),
        decreases leaves.len() - i,
    {
        proof {
            assert(leaves@.take(i + 1).drop_last() =~= leaves@.take(i as int));
        }
        push_leaf(out, &leaves[i], f, Ghost(pt));
        i = i + 1;
    }
    assert(leaves@.take(leaves.len() as int) =~= leaves@);
}

/// Appends a group: its branches, separated by `|`.
fn push_group<P, F: Fn(&P) -> String>(
    out: &mut String,
    group: &Group<P>,
    f: &F,
    Ghost(pt): Ghost<spec_fn(P) -> Seq<char>>,
)
    requires
        renders(*f, pt),
    ensures
        final(out)@ == old(out)@ + group_text(pt, *group),
    decreases *group,
{
    let mut i: usize = 0;
    while i < group.branches.len()
        invariant
            i <= group.branches.len(),
            renders(*f, pt),
            out@ == old(out)@ + branches_text(pt, group.branches@.take(i as int)),
        decreases group.branches.len() - i,
    {
        proof {
            assert(group.branches@.take(i + 1).drop_last() =~= group.branches@.take(i as int));
        }
        if i > 0 {
            push_str(out, "|");
        }
        push_leaves(out, &group.branches[i].leaves, f, Ghost(pt));
        i = i + 1;
    }
    assert(group.branches@.take(group.branches.len() as int) =~= group.branches@);
}

/// Renders a pattern between its delimiters, followed by its flags.
fn ast_to_string<P, F: Fn(&P) -> String>(ast: &Ast<P>, f: &F, Ghost(pt): Ghost<spec_fn(P) -> Seq<char>>) -> (s:
    String)
    requires
        renders(*f, pt),
    ensures
        s@ == ast_text(pt, *ast),
{
    let mut s = String::new();
    push_str(&mut s, "re/");
    push_group(&mut s, &ast.root, f, Ghost(pt));
    if ast.ignore_case {
        push_str(&mut s, "/i");
    } else {
        push_str(&mut s, "/");
    }
    s
}

/// The source form of a variable: its sigil and its name.
pub open spec fn var_text(v: Var<Ident>) -> Seq<char> {
    match v {
        Var::Local { name } => "$"@ + name@,
        Var::Global { name } => "%"@ + name@,
    }
}

/// The function that gives a variable its source form.
pub open spec fn var_texts() -> spec_fn(Var<Ident>) -> Seq<char> {
    |v: Var<Ident>| var_text(v)
}

/// The function that gives a text payload its source form: the text itself.
pub open spec fn plain_texts() -> spec_fn(String) -> Seq<char> {
    |s: String| s@
}

impl Ast<Var<Ident>> {
    /// Renders the pattern in its source form.
    pub fn to_string(&self) -> (s: String)
        ensures
            s@ == ast_text(var_texts(), *self),
    {
        let f = |v: &Var<Ident>| -> (r: String)
            ensures
                r@ == var_text(*v),
            {
                let mut r = String::new();
                match v {
                    Var::Local { name } => {
                        push_str(&mut r, "$");
                        push_str(&mut r, name.as_str());
                    },
                    Var::Global { name } => {
                        push_str(&mut r, "%");
                        push_str(&mut r, name.as_str());
                    },
                }
                r
            };
        ast_to_string(self, &f, Ghost(var_texts()))
    }
}

impl Compiled {
    /// Renders the pattern in its source form, with the text of each variable
    /// where the variable stood.
    pub fn to_string(&self) -> (s: String)
        ensures
            s@ == ast_text(plain_texts(), self.ast),
    {
        let f = |t: &String| -> (r: String)
            ensures
                r@ == t@,
            { t.clone() };
        ast_to_string(&self.ast, &f, Ghost(plain_texts()))
    }
}

} // verus!
