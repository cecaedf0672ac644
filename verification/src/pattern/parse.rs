//! The pattern syntax tree and the parser that builds it.

use vstd::prelude::*;
use crate::error::Error;
use crate::ident::Ident;
use crate::pattern::Var;
use crate::text::{alphabetic, digit, digit_value, is_alphabetic, is_digit, push_char};
use crate::token::{word_end, word_end_bounds, Tokenizer};

verus! {

/// A parsed pattern. `P` is what stands for an interpolated variable: a
/// reference to the variable after parsing, its text after specialization.
#[derive(Debug, PartialEq, Eq)]
pub struct Ast<P> {
    pub root: Group<P>,
    pub ignore_case: bool,
}

/// A numbered group: alternatives, tried in order.
#[derive(Debug, PartialEq, Eq)]
pub struct Group<P> {
    pub number: u8,
    pub branches: Vec<Branch<P>>,
}

/// One alternative of a group: leaves, matched one after the other.
#[derive(Debug, PartialEq, Eq)]
pub struct Branch<P> {
    pub leaves: Vec<Leaf<P>>,
}

/// One element of a branch.
#[derive(Debug, PartialEq, Eq)]
pub enum Leaf<P> {
    Group(Group<P>),
    Raw(String),
    Class(Class),
    AnchorStart,
    AnchorEnd,
    /// A quantified leaf together with the rest of its branch, which the
    /// matcher tries between bites of the prefix.
    Repeat { prefix: Box<Leaf<P>>, times: Repeat, suffix: Branch<P> },
    Payload(P),
}

/// A member of a custom class: one code point, or the code points from
/// `lo` up to but not including `hi`.
#[derive(Copy, Clone, Debug, PartialEq, Eq, Structural)]
pub enum Member {
    One(char),
    Range { lo: char, hi: char },
}

impl Member {
    /// Whether the member holds `c`.
    pub open spec fn holds(self, c: char) -> bool {
        match self {
            Member::One(m) => c == m,
            Member::Range { lo, hi } => lo as u32 <= c as u32 && (c as u32) < hi as u32,
        }
    }

    /// Tests the member for holding `c`.
    pub fn contains(&self, c: char) -> (b: bool)
        ensures
            b == self.holds(c),
    {
        match self {
            Member::One(m) => c == *m,
            Member::Range { lo, hi } => *lo as u32 <= c as u32 && (c as u32) < *hi as u32,
        }
    }
}

/// A class of code points.
#[derive(Clone, Debug, PartialEq, Eq)]
pub enum Class {
    Dot,
    Digit,
    Word,
    Space,
    /// A custom class. Its members are the code points that any of the
    /// listed members holds.
    Custom { invert: bool, members: Vec<Member> },
}

/// How often a quantified leaf may repeat.
#[derive(Copy, Clone, Debug, PartialEq, Eq, Structural)]
pub enum Repeat {
    OneOrZero,
    ZeroOrMore,
    OneOrMore,
    Count(usize),
}

/// Whether one of the members holds `c`.
pub open spec fn listed_in(members: Seq<Member>, c: char) -> bool {
    exists|i: int| 0 <= i < members.len() && (#[trigger] members[i]).holds(c)
}

/// The set of code points that a custom class lists.
pub open spec fn member_set(members: Seq<Member>) -> Set<char> {
    Set::new(|c: char| listed_in(members, c))
}

/// The mathematical value of a leaf: texts are sequences of code points, and
/// each payload is what `Q` says of it.
pub enum LeafView<Q> {
    Group(GroupView<Q>),
    Raw(Seq<char>),
    Class(ClassView),
    AnchorStart,
    AnchorEnd,
    Repeat { prefix: Box<LeafView<Q>>, times: Repeat, suffix: Seq<LeafView<Q>> },
    Payload(Q),
}

/// The mathematical value of a group.
pub struct GroupView<Q> {
    pub number: u8,
    pub branches: Seq<Seq<LeafView<Q>>>,
}

/// The mathematical value of a class.
pub enum ClassView {
    Dot,
    Digit,
    Word,
    Space,
    Custom { invert: bool, members: Seq<Member> },
}

/// The mathematical value of a pattern.
pub struct AstView<Q> {
    pub root: GroupView<Q>,
    pub ignore_case: bool,
}

/// A variable by its sigil and its name.
pub enum Name {
    Local(Seq<char>),
    Global(Seq<char>),
}

/// The name of a variable as the parser read it.
pub open spec fn var_name(v: Var<Ident>) -> Name {
    match v {
        Var::Local { name } => Name::Local(name@),
        Var::Global { name } => Name::Global(name@),
    }
}

/// The value of a class.
pub open spec fn class_view(c: Class) -> ClassView {
    match c {
        Class::Dot => ClassView::Dot,
        Class::Digit => ClassView::Digit,
        Class::Word => ClassView::Word,
        Class::Space => ClassView::Space,
        Class::Custom { invert, members } => ClassView::Custom { invert, members: members@ },
    }
}

/// The value of a leaf, where `pv` gives the value of a payload.
pub open spec fn leaf_view<P, Q>(pv: spec_fn(P) -> Q, l: Leaf<P>) -> LeafView<Q>
    decreases l,
{
    match l {
        Leaf::Group(g) => LeafView::Group(group_view(pv, g)),
        Leaf::Raw(s) => LeafView::Raw(s@),
        Leaf::Class(c) => LeafView::Class(class_view(c)),
        Leaf::AnchorStart => LeafView::AnchorStart,
        Leaf::AnchorEnd => LeafView::AnchorEnd,
        Leaf::Repeat { prefix, times, suffix } => LeafView::Repeat {
            prefix: Box::new(leaf_view(pv, *prefix)),
            times,
            suffix: leaves_view(pv, suffix.leaves@),
        },
        Leaf::Payload(p) => LeafView::Payload(pv(p)),
    }
}

/// The values of a run of leaves.
pub open spec fn leaves_view<P, Q>(pv: spec_fn(P) -> Q, ls: Seq<Leaf<P>>) -> Seq<LeafView<Q>>
    decreases ls, ls.len(),
{
    if ls.len() == 0 {
        Seq::empty()
    } else {
        leaves_view(pv, ls.drop_last()).push(leaf_view(pv, ls.last()))
    }
}

/// The value of a group.
pub open spec fn group_view<P, Q>(pv: spec_fn(P) -> Q, g: Group<P>) -> GroupView<Q>
    decreases g,
{
    GroupView { number: g.number, branches: branches_view(pv, g.branches@) }
}

/// The values of a run of branches.
pub open spec fn branches_view<P, Q>(pv: spec_fn(P) -> Q, bs: Seq<Branch<P>>) -> Seq<Seq<LeafView<Q>>>
    decreases bs, bs.len(),
{
    if bs.len() == 0 {
        Seq::empty()
    } else {
        branches_view(pv, bs.drop_last()).push(leaves_view(pv, bs.last().leaves@))
    }
}

/// The value of a pattern.
pub open spec fn ast_view<P, Q>(pv: spec_fn(P) -> Q, a: Ast<P>) -> AstView<Q> {
    AstView { root: group_view(pv, a.root), ignore_case: a.ignore_case }
}

/// What the parser has read of a branch: leaves, and quantified leaves
/// that still wait for the rest of the branch.
pub enum ItemView {
    Leaf { leaf: LeafView<Name> },
    Repeat { prefix: LeafView<Name>, times: Repeat },
}

/// The leaves that the items `items[i..]` make, followed by `tail`: a
/// quantified leaf takes everything after it as its suffix.
pub open spec fn fold_onto(items: Seq<ItemView>, i: int, tail: Seq<LeafView<Name>>) -> Seq<LeafView<Name>>
    decreases items.len() - i,
{
    if 0 <= i < items.len() {
        match items[i] {
            ItemView::Leaf { leaf } => seq![leaf] + fold_onto(items, i + 1, tail),
            ItemView::Repeat { prefix, times } => seq![
                LeafView::Repeat {
                    prefix: Box::new(prefix),
                    times,
                    suffix: fold_onto(items, i + 1, tail),
                },
            ],
        }
    } else {
        tail
    }
}

/// The branch that the items make.
pub open spec fn taken(items: Seq<ItemView>) -> Seq<LeafView<Name>> {
    fold_onto(items, 0, Seq::empty())
}

/// The items after a literal character: it extends a raw leaf that ends the
/// items, and starts a new raw leaf otherwise.
pub open spec fn with_char(items: Seq<ItemView>, c: char) -> Seq<ItemView> {
    if items.len() > 0 {
        match items.last() {
            ItemView::Leaf { leaf: LeafView::Raw(text) } => items.drop_last().push(
                ItemView::Leaf { leaf: LeafView::Raw(text.push(c)) },
            ),
            _ => items.push(ItemView::Leaf { leaf: LeafView::Raw(seq![c]) }),
        }
    } else {
        items.push(ItemView::Leaf { leaf: LeafView::Raw(seq![c]) })
    }
}

/// The items after a quantifier: it wraps the leaf that ends the items, and
/// is an error when no leaf does.
pub open spec fn with_repeat(items: Seq<ItemView>, times: Repeat) -> Option<Seq<ItemView>> {
    if items.len() > 0 {
        match items.last() {
            ItemView::Leaf { leaf } => Some(
                items.drop_last().push(ItemView::Repeat { prefix: leaf, times }),
            ),
            _ => None,
        }
    } else {
        None
    }
}

/// Where the parser of a group stands.
pub struct Progress {
    pub pos: int,
    pub counter: int,
    pub branches: Seq<Seq<LeafView<Name>>>,
    pub items: Seq<ItemView>,
}

/// Whether a character after a backslash stands for itself.
pub open spec fn escapable(c: char) -> bool {
    c == '|' || c == '(' || c == ')' || c == '[' || c == ']' || c == '{' || c == '}' || c == '.'
        || c == '^' || c == '$' || c == '?' || c == '*' || c == '+' || c == '\\'
}

/// The offset after the run of decimal digits that starts at `pos`.
pub open spec fn digits_end(src: Seq<char>, pos: int) -> int
    decreases src.len() - pos,
{
    if 0 <= pos < src.len() && digit(src[pos]) {
        digits_end(src, pos + 1)
    } else {
        pos
    }
}

/// The number that the decimal digits `src[from..to]` denote.
pub open spec fn number_at(src: Seq<char>, from: int, to: int) -> int
    decreases to - from,
{
    if from < to {
        number_at(src, from, to - 1) * 10 + digit_value(src[to - 1])
    } else {
        0
    }
}

/// The count of a `{n}` quantifier whose digits start at `pos`, and the
/// offset after its closing brace. The digits must be there, a `}` must
/// follow them, and the number must fit.
pub open spec fn count_at(src: Seq<char>, pos: int) -> Option<(usize, int)> {
    let end = digits_end(src, pos);
    if 0 <= pos < end < src.len() && src[end] == '}' && number_at(src, pos, end) <= usize::MAX {
        Some((number_at(src, pos, end) as usize, end + 1))
    } else {
        None
    }
}

/// Where the parser of a class stands.
pub struct ClassProgress {
    pub pos: int,
    pub prev: Option<char>,
    pub invert: bool,
    pub members: Seq<Member>,
}

/// Parses the body of a class from `p.pos` up to its closing bracket. A
/// `^` inverts the class where it is the first character of the body, and
/// is a member like any other elsewhere.
pub open spec fn class_at(src: Seq<char>, p: ClassProgress) -> Option<(ClassView, int)>
    decreases src.len() - p.pos,
{
    if 0 <= p.pos < src.len() {
        let ch = src[p.pos];
        let pos = p.pos + 1;
        if ch == ']' {
            Some((ClassView::Custom { invert: p.invert, members: p.members }, pos))
        } else if ch == '^' && p.prev is None && !p.invert && p.members.len() == 0 {
            class_at(src, ClassProgress { pos, prev: None, invert: true, members: p.members })
        } else if ch == '-' {
            if pos >= src.len() {
                None
            } else if src[pos] != ']' && p.prev is Some {
                let lo = p.prev->0;
                let hi = src[pos];
                if lo as u32 >= hi as u32 || (lo as u32) < 0xD800 && hi as u32 > 0xD800 {
                    None
                } else {
                    class_at(
                        src,
                        ClassProgress {
                            pos: pos + 1,
                            prev: None,
                            invert: p.invert,
                            members: p.members.push(Member::Range { lo, hi }),
                        },
                    )
                }
            } else {
                class_at(
                    src,
                    ClassProgress {
                        pos,
                        prev: Some(ch),
                        invert: p.invert,
                        members: p.members.push(Member::One(ch)),
                    },
                )
            }
        } else {
            class_at(
                src,
                ClassProgress {
                    pos,
                    prev: Some(ch),
                    invert: p.invert,
                    members: p.members.push(Member::One(ch)),
                },
            )
        }
    } else {
        None
    }
}

/// Why a text is no pattern.
pub enum Fault {
    /// The text breaks the syntax of patterns.
    Syntax,
    /// A `%` is followed by a word with this text, which is no identifier.
    Word(Seq<char>),
}

/// Whether the error `e` tells the fault `f`.
pub open spec fn reports(e: Error, f: Fault) -> bool {
    match f {
        Fault::Syntax => e is InvalidRegex,
        Fault::Word(text) => e matches Error::InvalidIdent { input } && input@ == text,
    }
}

/// Parses a group whose opening delimiter has been read: numbers it, then
/// reads its branches up to `end`. The result is the group, the offset after
/// `end`, and the number that the next group gets.
pub open spec fn group_at(src: Seq<char>, pos: int, end: char, counter: int) -> Result<
    (GroupView<Name>, int, int),
    Fault,
>
    decreases src.len() - pos, 1int,
{
    if 0 <= counter <= 255 {
        group_from(
            src,
            end,
            counter as u8,
            Progress { pos, counter: counter + 1, branches: Seq::empty(), items: Seq::empty() },
        )
    } else {
        Err(Fault::Syntax)
    }
}

/// Reads the rest of group `number` from where the parser stands.
pub open spec fn group_from(src: Seq<char>, end: char, number: u8, p: Progress) -> Result<
    (GroupView<Name>, int, int),
    Fault,
>
    decreases src.len() - p.pos, 0int,
{
    if 0 <= p.pos < src.len() {
        let ch = src[p.pos];
        let pos = p.pos + 1;
        let push = |leaf: LeafView<Name>|
            Progress { pos, counter: p.counter, branches: p.branches, items: p.items.push(ItemView::Leaf { leaf }) };
        let quantify = |times: Repeat|
            match with_repeat(p.items, times) {
                Some(items) => group_from(
                    src,
                    end,
                    number,
                    Progress { pos, counter: p.counter, branches: p.branches, items },
                ),
                None => Err(Fault::Syntax),
            };
        if ch == end {
            Ok((GroupView { number, branches: p.branches.push(taken(p.items)) }, pos, p.counter))
        } else if ch == '|' {
            group_from(
                src,
                end,
                number,
                Progress {
                    pos,
                    counter: p.counter,
                    branches: p.branches.push(taken(p.items)),
                    items: Seq::empty(),
                },
            )
        } else if ch == '(' {
            match group_at(src, pos, ')', p.counter) {
                Ok((group, after, counter)) => if p.pos < after <= src.len() {
                    group_from(
                        src,
                        end,
                        number,
                        Progress {
                            pos: after,
                            counter,
                            branches: p.branches,
                            items: p.items.push(ItemView::Leaf { leaf: LeafView::Group(group) }),
                        },
                    )
                } else {
                    Err(Fault::Syntax)
                },
                Err(fault) => Err(fault),
            }
        } else if ch == '[' {
            match class_at(
                src,
                ClassProgress { pos, prev: None, invert: false, members: Seq::empty() },
            ) {
                Some((class, after)) => if p.pos < after <= src.len() {
                    group_from(
                        src,
                        end,
                        number,
                        Progress {
                            pos: after,
                            counter: p.counter,
                            branches: p.branches,
                            items: p.items.push(ItemView::Leaf { leaf: LeafView::Class(class) }),
                        },
                    )
                } else {
                    Err(Fault::Syntax)
                },
                None => Err(Fault::Syntax),
            }
        } else if ch == '{' {
            match count_at(src, pos) {
                Some((n, after)) => match with_repeat(p.items, Repeat::Count(n)) {
                    Some(items) => if p.pos < after <= src.len() {
                        group_from(
                            src,
                            end,
                            number,
                            Progress { pos: after, counter: p.counter, branches: p.branches, items },
                        )
                    } else {
                        Err(Fault::Syntax)
                    },
                    None => Err(Fault::Syntax),
                },
                None => Err(Fault::Syntax),
            }
        } else if ch == '}' || ch == ']' || ch == ')' {
            Err(Fault::Syntax)
        } else if ch == '^' {
            group_from(src, end, number, push(LeafView::AnchorStart))
        } else if ch == '$' {
            if pos >= src.len() {
                Err(Fault::Syntax)
            } else if src[pos] == end || src[pos] == ')' || src[pos] == '|' {
                group_from(src, end, number, push(LeafView::AnchorEnd))
            } else if alphabetic(src[pos]) {
                let after = word_end(src, pos + 1);
                if p.pos < after <= src.len() {
                    group_from(
                        src,
                        end,
                        number,
                        Progress {
                            pos: after,
                            counter: p.counter,
                            branches: p.branches,
                            items: p.items.push(
                                ItemView::Leaf {
                                    leaf: LeafView::Payload(Name::Local(src.subrange(pos, after))),
                                },
                            ),
                        },
                    )
                } else {
                    Err(Fault::Syntax)
                }
            } else {
                Err(Fault::Syntax)
            }
        } else if ch == '%' {
            if pos >= src.len() {
                Err(Fault::Syntax)
            } else if !alphabetic(src[pos]) {
                Err(Fault::Word(src.subrange(pos, word_end(src, pos + 1))))
            } else {
                let after = word_end(src, pos + 1);
                if p.pos < after <= src.len() {
                    group_from(
                        src,
                        end,
                        number,
                        Progress {
                            pos: after,
                            counter: p.counter,
                            branches: p.branches,
                            items: p.items.push(
                                ItemView::Leaf {
                                    leaf: LeafView::Payload(Name::Global(src.subrange(pos, after))),
                                },
                            ),
                        },
                    )
                } else {
                    Err(Fault::Syntax)
                }
            }
        } else if ch == '.' {
            group_from(src, end, number, push(LeafView::Class(ClassView::Dot)))
        } else if ch == '+' {
            quantify(Repeat::OneOrMore)
        } else if ch == '*' {
            quantify(Repeat::ZeroOrMore)
        } else if ch == '?' {
            quantify(Repeat::OneOrZero)
        } else if ch == '\\' {
            if pos >= src.len() {
                Err(Fault::Syntax)
            } else {
                let c = src[pos];
                let next = |items: Seq<ItemView>|
                    Progress { pos: pos + 1, counter: p.counter, branches: p.branches, items };
                if c == end || escapable(c) {
                    group_from(src, end, number, next(with_char(p.items, c)))
                } else if c == 'd' {
                    group_from(
                        src,
                        end,
                        number,
                        next(p.items.push(ItemView::Leaf { leaf: LeafView::Class(ClassView::Digit) })),
                    )
                } else if c == 'w' {
                    group_from(
                        src,
                        end,
                        number,
                        next(p.items.push(ItemView::Leaf { leaf: LeafView::Class(ClassView::Word) })),
                    )
                } else if c == 's' {
                    group_from(
                        src,
                        end,
                        number,
                        next(p.items.push(ItemView::Leaf { leaf: LeafView::Class(ClassView::Space) })),
                    )
                } else {
                    Err(Fault::Syntax)
                }
            }
        } else if (ch as u32) < 0x20 {
            Err(Fault::Syntax)
        } else {
            group_from(
                src,
                end,
                number,
                Progress { pos, counter: p.counter, branches: p.branches, items: with_char(p.items, ch) },
            )
        }
    } else {
        Err(Fault::Syntax)
    }
}

/// The closing delimiter that belongs to an opening one.
pub open spec fn closer(open: char) -> Option<char> {
    if open == '(' {
        Some(')')
    } else if open == '[' {
        Some(']')
    } else if open == '{' {
        Some('}')
    } else if open == '<' {
        Some('>')
    } else if open == '/' || open == '|' || open == '"' {
        Some(open)
    } else {
        None
    }
}

/// Reads the flags that follow a pattern: letters, of which only `i` is a
/// flag. The result says whether `i` was among them, and where the flags end.
pub open spec fn flags_at(src: Seq<char>, pos: int, seen: bool) -> Option<(bool, int)>
    decreases src.len() - pos,
{
    if 0 <= pos < src.len() && alphabetic(src[pos]) {
        if src[pos] == 'i' {
            flags_at(src, pos + 1, true)
        } else {
            None
        }
    } else {
        Some((seen, pos))
    }
}

/// Parses a delimited pattern with its flags at `pos`: the pattern and the
/// offset after it, or the reason for which the text is no pattern.
pub open spec fn pattern_at(src: Seq<char>, pos: int) -> Result<(AstView<Name>, int), Fault> {
    if 0 <= pos < src.len() {
        match closer(src[pos]) {
            Some(end) => match group_at(src, pos + 1, end, 0) {
                Ok((root, after, counter)) => match flags_at(src, after, false) {
                    Some((ignore_case, last)) => Ok((AstView { root, ignore_case }, last)),
                    None => Err(Fault::Syntax),
                },
                Err(fault) => Err(fault),
            },
            None => Err(Fault::Syntax),
        }
    } else {
        Err(Fault::Syntax)
    }
}

/// The function that gives a variable its name.
pub open spec fn naming() -> spec_fn(Var<Ident>) -> Name {
    |v: Var<Ident>| var_name(v)
}

enum Item {
    Leaf { leaf: Leaf<Var<Ident>> },
    Repeat { prefix: Box<Leaf<Var<Ident>>>, times: Repeat },
}

struct Tree {
    items: Vec<Item>,
}

spec fn item_view(item: Item) -> ItemView {
    match item {
        Item::Leaf { leaf } => ItemView::Leaf { leaf: leaf_view(naming(), leaf) },
        Item::Repeat { prefix, times } => ItemView::Repeat {
            prefix: leaf_view(naming(), *prefix),
            times,
        },
    }
}

spec fn items_view(items: Seq<Item>) -> Seq<ItemView>
    decreases items.len(),
{
    if items.len() == 0 {
        Seq::empty()
    } else {
        items_view(items.drop_last()).push(item_view(items.last()))
    }
}

proof fn items_view_push(items: Seq<Item>, item: Item)
    ensures
        items_view(items.push(item)) == items_view(items).push(item_view(item)),
{
    assert(items.push(item).drop_last() =~= items);
}

proof fn items_view_len(items: Seq<Item>)
    ensures
        items_view(items).len() == items.len(),
        items.len() > 0 ==> items_view(items).last() == item_view(items.last()) && items_view(
            items,
        ).drop_last() == items_view(items.drop_last()),
    decreases items.len(),
{
    if items.len() > 0 {
        items_view_len(items.drop_last());
        assert(items_view(items).drop_last() =~= items_view(items.drop_last()));
    }
}

/// The view of a run of leaves has one value for each leaf.
pub proof fn leaves_view_index<P, Q>(pv: spec_fn(P) -> Q, ls: Seq<Leaf<P>>)
    ensures
        leaves_view(pv, ls).len() == ls.len(),
        forall|i: int| 0 <= i < ls.len() ==> #[trigger] leaves_view(pv, ls)[i] == leaf_view(pv, ls[i]),
    decreases ls.len(),
{
    if ls.len() > 0 {
        leaves_view_index(pv, ls.drop_last());
    }
}

/// The views of the branches after one more branch.
pub proof fn branches_view_push<P, Q>(pv: spec_fn(P) -> Q, bs: Seq<Branch<P>>, b: Branch<P>)
    ensures
        branches_view(pv, bs.push(b)) == branches_view(pv, bs).push(leaves_view(pv, b.leaves@)),
{
    assert(bs.push(b).drop_last() =~= bs);
}

/// The view of a run of branches has one value for each branch.
pub proof fn branches_view_index<P, Q>(pv: spec_fn(P) -> Q, bs: Seq<Branch<P>>)
    ensures
        branches_view(pv, bs).len() == bs.len(),
        forall|i: int|
            0 <= i < bs.len() ==> #[trigger] branches_view(pv, bs)[i] == leaves_view(pv, bs[i].leaves@),
    decreases bs.len(),
{
    if bs.len() > 0 {
        branches_view_index(pv, bs.drop_last());
    }
}

proof fn fold_onto_last(items: Seq<ItemView>, i: int, tail: Seq<LeafView<Name>>)
    requires
        0 <= i < items.len(),
    ensures
        fold_onto(items, i, tail) == fold_onto(
            items.drop_last(),
            i,
            match items.last() {
                ItemView::Leaf { leaf } => seq![leaf] + tail,
                ItemView::Repeat { prefix, times } => seq![
                    LeafView::Repeat { prefix: Box::new(prefix), times, suffix: tail },
                ],
            },
        ),
    decreases items.len() - i,
{
    let rest = items.drop_last();
    if i == items.len() - 1 {
        assert(fold_onto(items, i + 1, tail) == tail);
        match items[i] {
            ItemView::Leaf { leaf } => {
                assert(seq![leaf] + tail =~= seq![leaf] + tail);
            },
            ItemView::Repeat { prefix, times } => {},
        }
    } else {
        fold_onto_last(items, i + 1, tail);
        assert(rest[i] == items[i]);
    }
}

impl Tree {
    spec fn view(&self) -> Seq<ItemView> {
        items_view(self.items@)
    }

    /// Appends a leaf to the current branch.
    fn push(&mut self, leaf: Leaf<Var<Ident>>)
        ensures
            final(self).view() == old(self).view().push(
                ItemView::Leaf { leaf: leaf_view(naming(), leaf) },
            ),
    {
        proof {
            items_view_push(self.items@, Item::Leaf { leaf });
        }
        self.items.push(Item::Leaf { leaf });
    }

    /// Appends a literal character to the current branch: to its last leaf
    /// where that is literal text, as a new leaf otherwise.
    fn putchar(&mut self, ch: char)
        ensures
            final(self).view() == with_char(old(self).view(), ch),
    {
        proof {
            items_view_len(self.items@);
        }
        let ghost rest = self.items@.drop_last();
        match self.items.pop() {
            Some(Item::Leaf { leaf: Leaf::Raw(text) }) => {
                let mut text = text;
                push_char(&mut text, ch);
                proof {
                    items_view_push(rest, Item::Leaf { leaf: Leaf::Raw(text) });
                }
                self.items.push(Item::Leaf { leaf: Leaf::Raw(text) });
            },
            Some(other) => {
                proof {
                    items_view_push(rest, other);
                    assert(rest.push(other) =~= old(self).items@);
                }
                self.items.push(other);
                let mut text = String::new();
                push_char(&mut text, ch);
                assert(text@ =~= seq![ch]);
                self.push(Leaf::Raw(text));
            },
            None => {
                let mut text = String::new();
                push_char(&mut text, ch);
                assert(text@ =~= seq![ch]);
                self.push(Leaf::Raw(text));
            },
        }
    }

    /// Puts a repetition around the leaf that ends the current branch.
    fn repeat(&mut self, times: Repeat) -> (r: Result<(), Error>)
        ensures
            r is Ok == with_repeat(old(self).view(), times) is Some,
            r is Ok ==> Some(final(self).view()) == with_repeat(old(self).view(), times),
            r matches Err(e) ==> e is InvalidRegex,
    {
        proof {
            items_view_len(self.items@);
        }
        let ghost rest = self.items@.drop_last();
        match self.items.pop() {
            Some(Item::Leaf { leaf }) => {
                proof {
                    items_view_push(rest, Item::Repeat { prefix: Box::new(leaf), times });
                }
                self.items.push(Item::Repeat { prefix: Box::new(leaf), times });
                Ok(())
            },
            _ => Err(Error::InvalidRegex),
        }
    }

    #[verifier::loop_isolation(false)]
    fn take(&mut self) -> (branch: Branch<Var<Ident>>)
        ensures
            leaves_view(naming(), branch.leaves@) == taken(old(self).view()),
            final(self).view() == Seq::<ItemView>::empty(),
    {
        let mut leaves: Vec<Leaf<Var<Ident>>> = Vec::new();
        let ghost all = self.view();
        while self.items.len() > 0
            invariant
                taken(all) == fold_onto(self.view(), 0, leaves_view(naming(), leaves@)),
            decreases self.items.len(),
        {
            proof {
                items_view_len(self.items@);
                fold_onto_last(self.view(), 0, leaves_view(naming(), leaves@));
            }
            let ghost tail = leaves@;
            match self.items.pop().unwrap() {
                Item::Leaf { leaf } => {
                    leaves.insert(0, leaf);
                    proof {
                        leaves_view_index(naming(), tail);
                        leaves_view_index(naming(), leaves@);
                        assert(leaves_view(naming(), leaves@) =~= seq![leaf_view(naming(), leaf)]
                            + leaves_view(naming(), tail));
                    }
                },
                Item::Repeat { prefix, times } => {
                    let suffix = Branch { leaves };
                    let leaf = Leaf::Repeat { prefix, times, suffix };
                    leaves = Vec::new();
                    leaves.push(leaf);
                    proof {
                        leaves_view_index(naming(), leaves@);
                        assert(leaves_view(naming(), leaves@) =~= seq![leaf_view(naming(), leaf)]);
                    }
                },
            }
        }
        proof {
            items_view_len(self.items@);
        }
        Branch { leaves }
    }
}

/// Reads the next character; the end of the input is an error.
fn consume(stream: &mut Tokenizer) -> (r: Result<char, Error>)
    ensures
        final(stream).source() == old(stream).source(),
        r is Ok == old(stream).upcoming() is Some,
        r matches Ok(c) ==> Some(c) == old(stream).upcoming() && final(stream).position() == old(
            stream,
        ).position() + 1,
        r matches Err(e) ==> e is InvalidRegex && final(stream).position() == old(stream).position(),
{
    match stream.getc() {
        Some(c) => Ok(c),
        None => Err(Error::InvalidRegex),
    }
}

/// Whether `ch` after a backslash stands for itself.
fn is_escapable(c: char) -> (b: bool)
    ensures
        b == escapable(c),
{
    c == '|' || c == '(' || c == ')' || c == '[' || c == ']' || c == '{' || c == '}' || c == '.'
        || c == '^' || c == '$' || c == '?' || c == '*' || c == '+' || c == '\\'
}

/// A numeral gets no smaller when more digits follow.
pub proof fn number_at_grows(src: Seq<char>, from: int, mid: int, to: int)
    requires
        0 <= from <= mid <= to <= src.len(),
        forall|j: int| from <= j < to ==> digit(#[trigger] src[j]),
    ensures
        0 <= number_at(src, from, mid) <= number_at(src, from, to),
    decreases to - mid,
{
    number_at_positive(src, from, mid);
    if mid < to {
        number_at_grows(src, from, mid, to - 1);
        assert(digit(src[to - 1]));
    }
}

/// A numeral denotes no negative number.
pub proof fn number_at_positive(src: Seq<char>, from: int, to: int)
    requires
        0 <= from <= to <= src.len(),
        forall|j: int| from <= j < to ==> digit(#[trigger] src[j]),
    ensures
        0 <= number_at(src, from, to),
    decreases to - from,
{
    if from < to {
        number_at_positive(src, from, to - 1);
        assert(digit(src[to - 1]));
    }
}

/// The run of digits from `from` ends where the run from a later digit of it ends.
pub proof fn digits_end_from(src: Seq<char>, from: int, at: int)
    requires
        0 <= from <= at <= src.len(),
        forall|j: int| from <= j < at ==> digit(#[trigger] src[j]),
    ensures
        digits_end(src, from) == digits_end(src, at),
        at <= digits_end(src, at) <= src.len(),
        forall|j: int| from <= j < digits_end(src, at) ==> digit(#[trigger] src[j]),
    decreases src.len() - from,
{
    reveal_with_fuel(digits_end, 2);
    if from < at {
        assert(digit(src[from]));
        digits_end_from(src, from + 1, at);
    } else {
        digits_end_run(src, at);
    }
}

/// The run of digits from `at` is a run of digits within the source.
pub proof fn digits_end_run(src: Seq<char>, at: int)
    requires
        0 <= at <= src.len(),
    ensures
        at <= digits_end(src, at) <= src.len(),
        forall|j: int| at <= j < digits_end(src, at) ==> digit(#[trigger] src[j]),
    decreases src.len() - at,
{
    if at < src.len() && digit(src[at]) {
        digits_end_run(src, at + 1);
    }
}

/// Reads the digits and the closing brace of a `{n}` quantifier.
#[verifier::loop_isolation(false)]
fn parse_count(stream: &mut Tokenizer) -> (r: Result<usize, Error>)
    ensures
        final(stream).source() == old(stream).source(),
        old(stream).position() <= final(stream).position() <= old(stream).source().len(),
        r is Ok == count_at(old(stream).source(), old(stream).position()) is Some,
        r matches Ok(n) ==> Some((n, final(stream).position())) == count_at(
            old(stream).source(),
            old(stream).position(),
        ),
        r matches Err(e) ==> e is InvalidRegex,
{
    let ghost src = stream.source();
    let ghost from = stream.position();
    proof {
        stream.position_bounds();
    }
    let mut count: usize = 0;
    let mut seen = false;
    loop
        invariant
            stream.source() == src,
            0 <= from <= stream.position() <= src.len(),
            seen == (stream.position() > from),
            forall|j: int| from <= j < stream.position() ==> digit(#[trigger] src[j]),
            count == number_at(src, from, stream.position()),
        decreases src.len() - stream.position(),
    {
        proof {
            digits_end_from(src, from, stream.position());
        }
        let d = match consume(stream) {
            Ok(d) => d,
            Err(e) => {
                return Err(e);
            },
        };
        if is_digit(d) {
            let value: usize = (d as u32 - '0' as u32) as usize;
            proof {
                digits_end_from(src, from, stream.position());
                number_at_grows(src, from, stream.position(), digits_end(src, from));
            }
            count = match count.checked_mul(10) {
                Some(tens) => match tens.checked_add(value) {
                    Some(sum) => sum,
                    None => {
                        return Err(Error::InvalidRegex);
                    },
                },
                None => {
                    return Err(Error::InvalidRegex);
                },
            };
            seen = true;
        } else if d == '}' {
            if !seen {
                return Err(Error::InvalidRegex);
            }
            return Ok(count);
        } else {
            return Err(Error::InvalidRegex);
        }
    }
}

/// Reads the body of a character class up to its closing bracket.
#[verifier::loop_isolation(false)]
fn parse_class(stream: &mut Tokenizer) -> (r: Result<Class, Error>)
    ensures
        final(stream).source() == old(stream).source(),
        old(stream).position() <= final(stream).position() <= old(stream).source().len(),
        match class_at(
            old(stream).source(),
            ClassProgress {
                pos: old(stream).position(),
                prev: None,
                invert: false,
                members: Seq::empty(),
            },
        ) {
            Some((class, after)) => r matches Ok(c) && class_view(c) == class
                && final(stream).position() == after,
            None => r matches Err(e) && e is InvalidRegex,
        },
{
    let ghost src = stream.source();
    let ghost start = ClassProgress {
        pos: stream.position(),
        prev: None,
        invert: false,
        members: Seq::empty(),
    };
    let mut prev: Option<char> = None;
    let mut invert = false;
    let mut members: Vec<Member> = Vec::new();
    proof {
        stream.position_bounds();
    }
    loop
        invariant
            stream.source() == src,
            start.pos <= stream.position() <= src.len(),
            class_at(src, start) == class_at(
                src,
                ClassProgress { pos: stream.position(), prev, invert, members: members@ },
            ),
        decreases src.len() - stream.position(),
    {
        let ch = match consume(stream) {
            Ok(ch) => ch,
            Err(e) => {
                return Err(e);
            },
        };
        if ch == ']' {
            return Ok(Class::Custom { invert, members });
        }
        if ch == '^' && prev.is_none() && !invert && members.len() == 0 {
            invert = true;
            continue ;
        }
        if ch == '-' {
            let next = match stream.lookahead() {
                Some(next) => next,
                None => {
                    return Err(Error::InvalidRegex);
                },
            };
            if next != ']' {
                if let Some(lo) = prev {
                    stream.getc();
                    let from: u32 = lo as u32;
                    let to: u32 = next as u32;
                    if from >= to || (from < 0xD800 && to > 0xD800) {
                        return Err(Error::InvalidRegex);
                    }
                    members.push(Member::Range { lo, hi: next });
                    prev = None;
                    continue ;
                }
            }
        }
        members.push(Member::One(ch));
        prev = Some(ch);
    }
}

/// Reads a group whose opening delimiter has been read, up to `end`.
/// `counter` is the number that the group gets; the result carries the
/// number that the next group gets.
#[verifier::loop_isolation(false)]
fn parse_group(stream: &mut Tokenizer, end: char, counter: usize) -> (r: Result<
    (Group<Var<Ident>>, usize),
    Error,
>)
    ensures
        final(stream).source() == old(stream).source(),
        old(stream).position() <= final(stream).position() <= old(stream).source().len(),
        match group_at(old(stream).source(), old(stream).position(), end, counter as int) {
            Ok((group, after, next)) => r matches Ok((g, n)) && group_view(naming(), g) == group
                && final(stream).position() == after && n == next && n <= 256,
            Err(fault) => r matches Err(e) && reports(e, fault),
        },
    decreases old(stream).source().len() - old(stream).position(),
{
    proof {
        stream.position_bounds();
    }
    if counter > 255 {
        return Err(Error::InvalidRegex);
    }
    let number: u8 = counter as u8;
    let mut counter: usize = counter + 1;
    let mut branches: Vec<Branch<Var<Ident>>> = Vec::new();
    let mut tree = Tree { items: Vec::new() };
    let ghost src = stream.source();
    let ghost whole = group_at(src, stream.position(), end, number as int);
    loop
        invariant
            stream.source() == src,
            old(stream).position() <= stream.position() <= src.len(),
            counter <= 256,
            whole == group_from(
                src,
                end,
                number,
                Progress {
                    pos: stream.position(),
                    counter: counter as int,
                    branches: branches_view(naming(), branches@),
                    items: tree.view(),
                },
            ),
        decreases src.len() - stream.position(),
    {
        let ghost here = stream.position();
        let ch = match consume(stream) {
            Ok(ch) => ch,
            Err(e) => {
                return Err(e);
            },
        };
        if ch == end {
            let branch = tree.take();
            proof {
                branches_view_push(naming(), branches@, branch);
            }
            branches.push(branch);
            return Ok((Group { number, branches }, counter));
        }
        if ch == '|' {
            let branch = tree.take();
            proof {
                branches_view_push(naming(), branches@, branch);
            }
            branches.push(branch);
        } else if ch == '(' {
            match parse_group(stream, ')', counter) {
                Ok((group, next)) => {
                    tree.push(Leaf::Group(group));
                    counter = next;
                },
                Err(e) => {
                    return Err(e);
                },
            }
        } else if ch == '[' {
            match parse_class(stream) {
                Ok(class) => {
                    tree.push(Leaf::Class(class));
                },
                Err(e) => {
                    return Err(e);
                },
            }
        } else if ch == '{' {
            let count = match parse_count(stream) {
                Ok(count) => count,
                Err(e) => {
                    return Err(e);
                },
            };
            match tree.repeat(Repeat::Count(count)) {
                Ok(()) => {},
                Err(e) => {
                    return Err(e);
                },
            }
        } else if ch == '}' || ch == ']' || ch == ')' {
            return Err(Error::InvalidRegex);
        } else if ch == '^' {
            tree.push(Leaf::AnchorStart);
        } else if ch == '$' {
            let next = match stream.lookahead() {
                Some(next) => next,
                None => {
                    return Err(Error::InvalidRegex);
                },
            };
            if next == end || next == ')' || next == '|' {
                tree.push(Leaf::AnchorEnd);
            } else if is_alphabetic(next) {
                proof {
                    word_end_bounds(src, here + 2);
                }
                match stream.word() {
                    Some(Ok(name)) => {
                        tree.push(Leaf::Payload(Var::Local { name }));
                    },
                    _ => {
                        return Err(Error::InvalidRegex);
                    },
                }
            } else {
                return Err(Error::InvalidRegex);
            }
        } else if ch == '%' {
            proof {
                if here + 1 < src.len() {
                    word_end_bounds(src, here + 2);
                }
            }
            match stream.word() {
                Some(Ok(name)) => {
                    tree.push(Leaf::Payload(Var::Global { name }));
                },
                Some(Err(e)) => {
                    return Err(e);
                },
                None => {
                    return Err(Error::InvalidRegex);
                },
            }
        } else if ch == '.' {
            tree.push(Leaf::Class(Class::Dot));
        } else if ch == '+' {
            match tree.repeat(Repeat::OneOrMore) {
                Ok(()) => {},
                Err(e) => {
                    return Err(e);
                },
            }
        } else if ch == '*' {
            match tree.repeat(Repeat::ZeroOrMore) {
                Ok(()) => {},
                Err(e) => {
                    return Err(e);
                },
            }
        } else if ch == '?' {
            match tree.repeat(Repeat::OneOrZero) {
                Ok(()) => {},
                Err(e) => {
                    return Err(e);
                },
            }
        } else if ch == '\\' {
            let c = match consume(stream) {
                Ok(c) => c,
                Err(e) => {
                    return Err(e);
                },
            };
            if c == end || is_escapable(c) {
                tree.putchar(c);
            } else if c == 'd' {
                tree.push(Leaf::Class(Class::Digit));
            } else if c == 'w' {
                tree.push(Leaf::Class(Class::Word));
            } else if c == 's' {
                tree.push(Leaf::Class(Class::Space));
            } else {
                return Err(Error::InvalidRegex);
            }
        } else if (ch as u32) < 0x20 {
            return Err(Error::InvalidRegex);
        } else {
            tree.putchar(ch);
        }
    }
}

/// The closing delimiter that belongs to an opening one.
fn closing(open: char) -> (r: Option<char>)
    ensures
        r == closer(open),
{
    if open == '(' {
        Some(')')
    } else if open == '[' {
        Some(']')
    } else if open == '{' {
        Some('}')
    } else if open == '<' {
        Some('>')
    } else if open == '/' || open == '|' || open == '"' {
        Some(open)
    } else {
        None
    }
}

impl Ast<Var<Ident>> {
    /// Parses a delimited pattern with its flags from where the stream
    /// stands. A text that is no pattern gives `InvalidRegex`, or, where a
    /// `%` is followed by a word that is no identifier, `InvalidIdent` with
    /// that word; the stream then stands somewhere in that text.
    #[verifier::loop_isolation(false)]
    pub fn parse(stream: &mut Tokenizer) -> (r: Result<Ast<Var<Ident>>, Error>)
        ensures
            final(stream).source() == old(stream).source(),
            match pattern_at(old(stream).source(), old(stream).position()) {
                Ok((pattern, after)) => r matches Ok(ast) && ast_view(naming(), ast) == pattern
                    && final(stream).position() == after,
                Err(fault) => r matches Err(e) && reports(e, fault),
            },
    {
        proof {
            stream.position_bounds();
        }
        let open = match consume(stream) {
            Ok(open) => open,
            Err(e) => {
                return Err(e);
            },
        };
        let close = match closing(open) {
            Some(close) => close,
            None => {
                return Err(Error::InvalidRegex);
            },
        };
        let root = match parse_group(stream, close, 0) {
            Ok((root, next)) => root,
            Err(e) => {
                return Err(e);
            },
        };
        let ghost src = stream.source();
        let ghost after = stream.position();
        let mut ignore_case = false;
        loop
            invariant
                stream.source() == src,
                after <= stream.position() <= src.len(),
                flags_at(src, after, false) == flags_at(src, stream.position(), ignore_case),
            decreases src.len() - stream.position(),
        {
            match stream.lookahead() {
                Some(c) => {
                    if !is_alphabetic(c) {
                        break ;
                    }
                    if c != 'i' {
                        return Err(Error::InvalidRegex);
                    }
                    ignore_case = true;
                    stream.getc();
                },
                None => {
                    break ;
                },
            }
        }
        Ok(Ast { root, ignore_case })
    }
}

/// The flags of a pattern end no earlier than they start.
pub proof fn flags_progress(src: Seq<char>, pos: int, seen: bool)
    requires
        0 <= pos,
    ensures
        flags_at(src, pos, seen) matches Some((i, end)) ==> pos <= end,
    decreases src.len() - pos,
{
    if pos < src.len() && alphabetic(src[pos]) && src[pos] == 'i' {
        flags_progress(src, pos + 1, true);
    }
}

/// The closing delimiter of a group stands after the offset at which the
/// parser of the group stood, and the group has the number that the parser
/// gave it when it opened the group.
pub proof fn group_progress(src: Seq<char>, end: char, number: u8, p: Progress)
    requires
        0 <= p.pos,
    ensures
        group_from(src, end, number, p) matches Ok((g, after, counter)) ==> p.pos < after
            && g.number == number,
    decreases src.len() - p.pos,
{
    if p.pos < src.len() {
        let ch = src[p.pos];
        let pos = p.pos + 1;
        if ch == end {
        } else if ch == '|' {
            group_progress(
                src,
                end,
                number,
                Progress {
                    pos,
                    counter: p.counter,
                    branches: p.branches.push(taken(p.items)),
                    items: Seq::empty(),
                },
            );
        } else if ch == '(' {
            match group_at(src, pos, ')', p.counter) {
                Ok((group, after, counter)) => {
                    if p.pos < after <= src.len() {
                        group_progress(
                            src,
                            end,
                            number,
                            Progress {
                                pos: after,
                                counter,
                                branches: p.branches,
                                items: p.items.push(ItemView::Leaf { leaf: LeafView::Group(group) }),
                            },
                        );
                    }
                },
                Err(_) => {},
            }
        } else if ch == '[' {
            match class_at(
                src,
                ClassProgress { pos, prev: None, invert: false, members: Seq::empty() },
            ) {
                Some((class, after)) => {
                    if p.pos < after <= src.len() {
                        group_progress(
                            src,
                            end,
                            number,
                            Progress {
                                pos: after,
                                counter: p.counter,
                                branches: p.branches,
                                items: p.items.push(ItemView::Leaf { leaf: LeafView::Class(class) }),
                            },
                        );
                    }
                },
                None => {},
            }
        } else if ch == '{' {
            match count_at(src, pos) {
                Some((n, after)) => match with_repeat(p.items, Repeat::Count(n)) {
                    Some(items) => {
                        if p.pos < after <= src.len() {
                            group_progress(
                                src,
                                end,
                                number,
                                Progress { pos: after, counter: p.counter, branches: p.branches, items },
                            );
                        }
                    },
                    None => {},
                },
                None => {},
            }
        } else if ch == '}' || ch == ']' || ch == ')' {
        } else if ch == '^' {
            group_progress(
                src,
                end,
                number,
                Progress {
                    pos,
                    counter: p.counter,
                    branches: p.branches,
                    items: p.items.push(ItemView::Leaf { leaf: LeafView::AnchorStart }),
                },
            );
        } else if ch == '$' {
            if pos >= src.len() {
            } else if src[pos] == end || src[pos] == ')' || src[pos] == '|' {
                group_progress(
                    src,
                    end,
                    number,
                    Progress {
                        pos,
                        counter: p.counter,
                        branches: p.branches,
                        items: p.items.push(ItemView::Leaf { leaf: LeafView::AnchorEnd }),
                    },
                );
            } else if alphabetic(src[pos]) {
                let after = word_end(src, pos + 1);
                if p.pos < after <= src.len() {
                    group_progress(
                        src,
                        end,
                        number,
                        Progress {
                            pos: after,
                            counter: p.counter,
                            branches: p.branches,
                            items: p.items.push(
                                ItemView::Leaf {
                                    leaf: LeafView::Payload(Name::Local(src.subrange(pos, after))),
                                },
                            ),
                        },
                    );
                }
            }
        } else if ch == '%' {
            if pos < src.len() && alphabetic(src[pos]) {
                let after = word_end(src, pos + 1);
                if p.pos < after <= src.len() {
                    group_progress(
                        src,
                        end,
                        number,
                        Progress {
                            pos: after,
                            counter: p.counter,
                            branches: p.branches,
                            items: p.items.push(
                                ItemView::Leaf {
                                    leaf: LeafView::Payload(Name::Global(src.subrange(pos, after))),
                                },
                            ),
                        },
                    );
                }
            }
        } else if ch == '.' {
            group_progress(
                src,
                end,
                number,
                Progress {
                    pos,
                    counter: p.counter,
                    branches: p.branches,
                    items: p.items.push(ItemView::Leaf { leaf: LeafView::Class(ClassView::Dot) }),
                },
            );
        } else if ch == '+' || ch == '*' || ch == '?' {
            let times = if ch == '+' {
                Repeat::OneOrMore
            } else if ch == '*' {
                Repeat::ZeroOrMore
            } else {
                Repeat::OneOrZero
            };
            match with_repeat(p.items, times) {
                Some(items) => {
                    group_progress(
                        src,
                        end,
                        number,
                        Progress { pos, counter: p.counter, branches: p.branches, items },
                    );
                },
                None => {},
            }
        } else if ch == '\\' {
            if pos < src.len() {
                let c = src[pos];
                let items = if c == end || escapable(c) {
                    with_char(p.items, c)
                } else if c == 'd' {
                    p.items.push(ItemView::Leaf { leaf: LeafView::Class(ClassView::Digit) })
                } else if c == 'w' {
                    p.items.push(ItemView::Leaf { leaf: LeafView::Class(ClassView::Word) })
                } else {
                    p.items.push(ItemView::Leaf { leaf: LeafView::Class(ClassView::Space) })
                };
                group_progress(
                    src,
                    end,
                    number,
                    Progress { pos: pos + 1, counter: p.counter, branches: p.branches, items },
                );
            }
        } else if (ch as u32) < 0x20 {
        } else {
            group_progress(
                src,
                end,
                number,
                Progress {
                    pos,
                    counter: p.counter,
                    branches: p.branches,
                    items: with_char(p.items, ch),
                },
            );
        }
    }
}

/// A pattern ends after the offset at which it starts, and its root is
/// group 0.
pub proof fn pattern_progress(src: Seq<char>, pos: int)
    requires
        0 <= pos,
    ensures
        pattern_at(src, pos) matches Ok((pattern, end)) ==> pos < end && pattern.root.number == 0,
{
    if pos < src.len() {
        match closer(src[pos]) {
            Some(end) => {
                group_progress(
                    src,
                    end,
                    0,
                    Progress { pos: pos + 1, counter: 1, branches: Seq::empty(), items: Seq::empty() },
                );
                match group_at(src, pos + 1, end, 0) {
                    Ok((root, after, counter)) => {
                        flags_progress(src, after, false);
                    },
                    Err(_) => {},
                }
            },
            None => {},
        }
    }
}

} // verus!
