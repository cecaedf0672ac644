//! The backtracking matcher.

use vstd::prelude::*;
use crate::pattern::compile::Compiled;
use crate::pattern::parse::{listed_in, member_set, Branch, Class, Group, Leaf, Member, Repeat};
use crate::text::{
    alphabetic, byte_offset, byte_offset_bounds, chars_of, digit, is_alphabetic, is_digit, is_whitespace,
    lowercase,
    to_lowercase, whitespace, Source,
};
use vstd::utf8::encode_utf8;

verus! {

pub type GroupNumber = u8;

/// The captures of a match: for each group that captured, its number and
/// the start and the end of what it matched.
pub type Captures = Vec<(GroupNumber, usize, usize)>;

/// What a match is made against: the haystack, the offset at which the
/// current attempt started, and the case mode.
pub struct Subject {
    pub haystack: Seq<char>,
    pub left: int,
    pub ignore_case: bool,
}

/// Where a match attempt stands: the offset reached and the captures made.
pub struct Cursor {
    pub right: int,
    pub captures: Seq<(GroupNumber, usize, usize)>,
}

/// Equality of code points up to case: equal, or equal lowercase mappings.
pub open spec fn fold_eq(a: char, b: char) -> bool {
    a == b || lowercase(a) == lowercase(b)
}

/// Whether the pattern character `needle` accepts the haystack character `ch`.
pub open spec fn char_matches(needle: char, ch: char, ignore_case: bool) -> bool {
    if ignore_case {
        fold_eq(needle, ch)
    } else {
        needle == ch
    }
}

/// Whether `text` stands in the haystack at offset `right`.
pub open spec fn text_at(text: Seq<char>, s: Subject, right: int) -> bool {
    &&& right + text.len() <= s.haystack.len()
    &&& forall|i: int|
        0 <= i < text.len() ==> char_matches(text[i], #[trigger] s.haystack[right + i], s.ignore_case)
}

/// Whether a class accepts a code point.
pub open spec fn class_accepts(class: Class, c: char) -> bool {
    match class {
        Class::Dot => true,
        Class::Digit => digit(c),
        Class::Word => alphabetic(c),
        Class::Space => whitespace(c),
        Class::Custom { invert, members } => member_set(members@).contains(c) != invert,
    }
}

/// Whether some capture in `captures` belongs to group `num`.
pub open spec fn has_capture(captures: Seq<(GroupNumber, usize, usize)>, num: GroupNumber) -> bool {
    exists|i: int| 0 <= i < captures.len() && (#[trigger] captures[i]).0 == num
}

/// The captures after group `num` has matched `start..end`: the first
/// capture of a group stays, a later one is dropped.
pub open spec fn with_capture(
    captures: Seq<(GroupNumber, usize, usize)>,
    num: GroupNumber,
    start: int,
    end: int,
) -> Seq<(GroupNumber, usize, usize)> {
    if has_capture(captures, num) {
        captures
    } else {
        captures.push((num, start as usize, end as usize))
    }
}

/// The least and the greatest number of repetitions, where an unbounded
/// quantifier is bounded by what is left of the haystack.
pub open spec fn bounds(times: Repeat, remaining: nat) -> (nat, nat) {
    match times {
        Repeat::OneOrZero => (0, 1),
        Repeat::ZeroOrMore => (0, remaining),
        Repeat::OneOrMore => (1, remaining),
        Repeat::Count(n) => (n as nat, n as nat),
    }
}

/// How many repetitions a quantifier allows beyond the least number.
pub open spec fn extra(min: nat, max: nat) -> nat {
    if max >= min {
        (max - min) as nat
    } else {
        0
    }
}

/// Matches one leaf at the cursor: the cursor after the leaf, or `None`.
pub open spec fn leaf_match(leaf: Leaf<String>, s: Subject, c: Cursor) -> Option<Cursor>
    decreases leaf, 2int, 0int,
{
    match leaf {
        Leaf::AnchorStart => if c.right == s.left {
            Some(c)
        } else {
            None
        },
        Leaf::AnchorEnd => if c.right == s.haystack.len() {
            Some(c)
        } else {
            None
        },
        Leaf::Raw(text) => if text_at(text@, s, c.right) {
            Some(Cursor { right: c.right + text@.len(), captures: c.captures })
        } else {
            None
        },
        Leaf::Payload(text) => if text_at(text@, s, c.right) {
            Some(Cursor { right: c.right + text@.len(), captures: c.captures })
        } else {
            None
        },
        Leaf::Class(class) => if 0 <= c.right < s.haystack.len() && class_accepts(
            class,
            s.haystack[c.right],
        ) {
            Some(Cursor { right: c.right + 1, captures: c.captures })
        } else {
            None
        },
        Leaf::Group(group) => group_match(group, s, c),
        Leaf::Repeat { prefix, times, suffix } => {
            let (min, max) = bounds(times, (s.haystack.len() - c.right) as nat);
            match repeat_exactly(leaf, min, s, c) {
                None => None,
                Some(c1) => repeat_greedy(leaf, extra(min, max), s, c1),
            }
        },
    }
}

/// Matches the prefix of a repetition exactly `n` times.
pub open spec fn repeat_exactly(leaf: Leaf<String>, n: nat, s: Subject, c: Cursor) -> Option<Cursor>
    decreases leaf, 1int, n,
{
    if n == 0 {
        Some(c)
    } else {
        match leaf {
            Leaf::Repeat { prefix, times, suffix } => match leaf_match(*prefix, s, c) {
                None => None,
                Some(c1) => repeat_exactly(leaf, (n - 1) as nat, s, c1),
            },
            _ => None,
        }
    }
}

/// Matches up to `budget` further repetitions of the prefix, then the
/// suffix. It takes as many repetitions as the prefix gives, and gives them
/// back one by one until the suffix matches.
pub open spec fn repeat_greedy(leaf: Leaf<String>, budget: nat, s: Subject, c: Cursor) -> Option<
    Cursor,
>
    decreases leaf, 0int, budget,
{
    match leaf {
        Leaf::Repeat { prefix, times, suffix } => {
            let more = if budget > 0 {
                leaf_match(*prefix, s, c)
            } else {
                None
            };
            match more {
                Some(c1) => match repeat_greedy(leaf, (budget - 1) as nat, s, c1) {
                    Some(r) => Some(r),
                    None => branch_match(suffix.leaves@, 0, s, c),
                },
                None => branch_match(suffix.leaves@, 0, s, c),
            }
        },
        _ => None,
    }
}

/// Matches the leaves `leaves[i..]` one after the other.
pub open spec fn branch_match(leaves: Seq<Leaf<String>>, i: int, s: Subject, c: Cursor) -> Option<
    Cursor,
>
    decreases leaves, leaves.len() - i,
{
    if 0 <= i < leaves.len() {
        match leaf_match(leaves[i], s, c) {
            None => None,
            Some(c1) => branch_match(leaves, i + 1, s, c1),
        }
    } else {
        Some(c)
    }
}

/// Matches a group: its first branch that matches wins, and the group's span
/// is captured unless the group has a capture already.
pub open spec fn group_match(group: Group<String>, s: Subject, c: Cursor) -> Option<Cursor>
    decreases group,
{
    branches_match(group.branches@, 0, group.number, s, c)
}

/// Tries the branches `branches[i..]` of group `number` in order.
pub open spec fn branches_match(
    branches: Seq<Branch<String>>,
    i: int,
    number: GroupNumber,
    s: Subject,
    c: Cursor,
) -> Option<Cursor>
    decreases branches, branches.len() - i,
{
    if 0 <= i < branches.len() {
        match branch_match(branches[i].leaves@, 0, s, c) {
            Some(c1) => Some(
                Cursor {
                    right: c1.right,
                    captures: with_capture(c1.captures, number, c.right, c1.right),
                },
            ),
            None => branches_match(branches, i + 1, number, s, c),
        }
    } else {
        None
    }
}

/// Tries the suffix at the cursors `states[..=k]`, from the last one down:
/// the giving back of repetitions.
pub open spec fn give_back(suffix: Seq<Leaf<String>>, states: Seq<Cursor>, k: int, s: Subject) -> Option<
    Cursor,
>
    decreases k + 1,
{
    if 0 <= k < states.len() {
        match branch_match(suffix, 0, s, states[k]) {
            Some(r) => Some(r),
            None => give_back(suffix, states, k - 1, s),
        }
    } else {
        None
    }
}

/// One attempt: the captures of the root group matched at offset `left`.
pub open spec fn match_at(code: Compiled, haystack: Seq<char>, left: int) -> Option<
    Seq<(GroupNumber, usize, usize)>,
> {
    match group_match(
        code.ast.root,
        Subject { haystack, left, ignore_case: code.ast.ignore_case },
        Cursor { right: left, captures: Seq::empty() },
    ) {
        Some(c) => Some(c.captures),
        None => None,
    }
}

/// The search: the captures of the first attempt that matches, at the
/// offsets `left`, `left + 1`, ... before the end of the haystack.
pub open spec fn first_match(code: Compiled, haystack: Seq<char>, left: int) -> Option<
    Seq<(GroupNumber, usize, usize)>,
>
    decreases haystack.len() - left,
{
    if 0 <= left < haystack.len() {
        match match_at(code, haystack, left) {
            Some(c) => Some(c),
            None => first_match(code, haystack, left + 1),
        }
    } else {
        None
    }
}

proof fn give_back_ignores_later(
    suffix: Seq<Leaf<String>>,
    states: Seq<Cursor>,
    c: Cursor,
    k: int,
    s: Subject,
)
    requires
        k < states.len(),
    ensures
        give_back(suffix, states.push(c), k, s) == give_back(suffix, states, k, s),
    decreases k + 1,
{
    if 0 <= k {
        assert(states.push(c)[k] == states[k]);
        give_back_ignores_later(suffix, states, c, k - 1, s);
    }
}

proof fn prefix_self<A>(a: Seq<A>)
    ensures
        a.is_prefix_of(a),
{
    assert(a =~= a.subrange(0, a.len() as int));
}

proof fn prefix_chain<A>(a: Seq<A>, b: Seq<A>, c: Seq<A>)
    requires
        a.is_prefix_of(b),
        b.is_prefix_of(c),
    ensures
        a.is_prefix_of(c),
{
    assert(a =~= c.subrange(0, a.len() as int)) by {
        assert forall|i: int| 0 <= i < a.len() implies a[i] == c[i] by {
            assert(a[i] == b.subrange(0, a.len() as int)[i]);
            assert(b[i] == c.subrange(0, b.len() as int)[i]);
        }
    }
}

/// The cursors of a checkpoint stack grow along the stack: each one's
/// captures extend `base` and those below it, and the first `live` of them
/// are extended by `top`.
spec fn chained(
    states: Seq<Cursor>,
    live: int,
    base: Seq<(GroupNumber, usize, usize)>,
    top: Seq<(GroupNumber, usize, usize)>,
) -> bool {
    &&& 0 <= live <= states.len()
    &&& forall|i: int, j: int|
        0 <= i <= j < states.len() ==> (#[trigger] states[i]).captures.is_prefix_of(
            (#[trigger] states[j]).captures,
        )
    &&& forall|j: int| 0 <= j < states.len() ==> base.is_prefix_of((#[trigger] states[j]).captures)
    &&& forall|j: int| 0 <= j < live ==> (#[trigger] states[j]).captures.is_prefix_of(top)
}

/// The checkpoints of a stack are the snapshots of the first cursors of `states`.
spec fn tracks(stack: Seq<Checkpoint>, states: Seq<Cursor>, left: int, len: int) -> bool {
    &&& stack.len() <= states.len()
    &&& forall|j: int|
        0 <= j < stack.len() ==> {
            &&& (#[trigger] stack[j]).right == states[j].right
            &&& stack[j].captures == states[j].captures.len()
            &&& left <= stack[j].right <= len
        }
}

proof fn chained_push(
    states: Seq<Cursor>,
    base: Seq<(GroupNumber, usize, usize)>,
    cur: Cursor,
)
    requires
        chained(states, states.len() as int, base, cur.captures),
        base.is_prefix_of(cur.captures),
    ensures
        chained(states.push(cur), states.len() as int + 1, base, cur.captures),
{
    let next = states.push(cur);
    prefix_self(cur.captures);
    assert forall|i: int, j: int| 0 <= i <= j < next.len() implies (#[trigger] next[i]).captures.is_prefix_of(
        (#[trigger] next[j]).captures,
    ) by {
        if j < states.len() {
            assert(states[i].captures.is_prefix_of(states[j].captures));
        } else if i < states.len() {
            assert(states[i].captures.is_prefix_of(cur.captures));
        }
    }
    assert forall|j: int| 0 <= j < next.len() implies base.is_prefix_of((#[trigger] next[j]).captures) by {
        if j < states.len() {
            assert(base.is_prefix_of(states[j].captures));
        }
    }
    assert forall|j: int| 0 <= j < next.len() implies (#[trigger] next[j]).captures.is_prefix_of(
        cur.captures,
    ) by {
        if j < states.len() {
            assert(states[j].captures.is_prefix_of(cur.captures));
        }
    }
}

proof fn chained_grow(
    states: Seq<Cursor>,
    live: int,
    base: Seq<(GroupNumber, usize, usize)>,
    top: Seq<(GroupNumber, usize, usize)>,
    later: Seq<(GroupNumber, usize, usize)>,
)
    requires
        chained(states, live, base, top),
        top.is_prefix_of(later),
    ensures
        chained(states, live, base, later),
{
    assert forall|j: int| 0 <= j < live implies (#[trigger] states[j]).captures.is_prefix_of(later) by {
        prefix_chain(states[j].captures, top, later);
    }
}

proof fn chained_pop(
    states: Seq<Cursor>,
    live: int,
    base: Seq<(GroupNumber, usize, usize)>,
    top: Seq<(GroupNumber, usize, usize)>,
)
    requires
        chained(states, live, base, top),
        live > 0,
    ensures
        chained(states, live - 1, base, states[live - 1].captures),
        base.is_prefix_of(states[live - 1].captures),
{
    assert forall|j: int| 0 <= j < live - 1 implies (#[trigger] states[j]).captures.is_prefix_of(
        states[live - 1].captures,
    ) by {
        assert(states[j].captures.is_prefix_of(states[live - 1].captures));
    }
}

proof fn tracks_push(stack: Seq<Checkpoint>, states: Seq<Cursor>, here: Checkpoint, cur: Cursor, left: int, len: int)
    requires
        tracks(stack, states, left, len),
        stack.len() == states.len(),
        here.right == cur.right,
        here.captures == cur.captures.len(),
        left <= here.right <= len,
    ensures
        tracks(stack.push(here), states.push(cur), left, len),
{
    let a = stack.push(here);
    let b = states.push(cur);
    assert forall|j: int| 0 <= j < a.len() implies {
        &&& (#[trigger] a[j]).right == b[j].right
        &&& a[j].captures == b[j].captures.len()
        &&& left <= a[j].right <= len
    } by {
        if j < stack.len() {
            assert(stack[j].right == states[j].right);
        }
    }
}

proof fn tracks_pop(stack: Seq<Checkpoint>, states: Seq<Cursor>, left: int, len: int)
    requires
        tracks(stack, states, left, len),
        stack.len() > 0,
    ensures
        tracks(stack.drop_last(), states, left, len),
        stack.last().right == states[stack.len() - 1].right,
        stack.last().captures == states[stack.len() - 1].captures.len(),
        left <= stack.last().right <= len,
{
    let a = stack.drop_last();
    assert(stack[stack.len() - 1].right == states[stack.len() - 1].right);
    assert forall|j: int| 0 <= j < a.len() implies {
        &&& (#[trigger] a[j]).right == states[j].right
        &&& a[j].captures == states[j].captures.len()
        &&& left <= a[j].right <= len
    } by {
        assert(stack[j].right == states[j].right);
    }
}

/// Whether every capture is a span of a text of length `len`: it starts
/// no later than it ends, and ends within the text.
pub open spec fn spans_within(captures: Seq<(GroupNumber, usize, usize)>, len: int) -> bool {
    forall|i: int|
        0 <= i < captures.len() ==> (#[trigger] captures[i]).1 <= captures[i].2 && captures[i].2 <= len
}

/// The captures of a match with their spans turned from indices into the
/// code points of the haystack into offsets in bytes.
pub open spec fn in_bytes(
    captures: Seq<(GroupNumber, usize, usize)>,
    haystack: Seq<char>,
) -> Seq<(GroupNumber, usize, usize)> {
    Seq::new(
        captures.len(),
        |i: int|
            (
                captures[i].0,
                byte_offset(haystack, captures[i].1 as int) as usize,
                byte_offset(haystack, captures[i].2 as int) as usize,
            ),
    )
}

/// A snapshot of a match attempt, to rewind to.
pub struct Checkpoint {
    right: usize,
    captures: usize,
}

/// The matcher: a pattern, a haystack, and the state of the current attempt.
pub struct Eval<'a> {
    code: &'a Compiled,
    haystack: Source,
    captures: Vec<(GroupNumber, usize, usize)>,
    left: usize,
    right: usize,
}

impl<'a> Eval<'a> {
    /// The pattern that the matcher runs.
    pub closed spec fn code(&self) -> Compiled {
        *self.code
    }

    /// The haystack that the matcher searches.
    pub closed spec fn haystack(&self) -> Seq<char> {
        self.haystack@
    }

    spec fn subject(&self) -> Subject {
        Subject {
            haystack: self.haystack@,
            left: self.left as int,
            ignore_case: self.code.ast.ignore_case,
        }
    }

    spec fn cursor(&self) -> Cursor {
        Cursor { right: self.right as int, captures: self.captures@ }
    }

    spec fn wf(&self) -> bool {
        &&& self.left <= self.right <= self.haystack@.len()
        &&& spans_within(self.captures@, self.haystack@.len() as int)
    }

    spec fn same_subject(&self, other: &Self) -> bool {
        &&& self.code == other.code
        &&& self.haystack == other.haystack
        &&& self.left == other.left
    }

    spec fn extends(&self, other: &Self) -> bool {
        &&& self.same_subject(other)
        &&& self.wf()
        &&& other.captures@.is_prefix_of(self.captures@)
    }

    spec fn holds(&self, here: Checkpoint, c: Cursor) -> bool {
        &&& here.right == c.right
        &&& here.captures == c.captures.len()
        &&& self.left <= here.right <= self.haystack@.len()
        &&& c.captures.is_prefix_of(self.captures@)
        &&& spans_within(self.captures@, self.haystack@.len() as int)
    }

    /// A matcher for `code` over the code points of `haystack`.
    pub fn new(code: &'a Compiled, haystack: &str) -> (e: Self)
        ensures
            e.code() == *code,
            e.haystack() == haystack@,
    {
        Eval { code, haystack: Source::new(haystack), captures: Vec::new(), left: 0, right: 0 }
    }

    /// Searches the haystack from its start for the first offset at which the
    /// pattern matches, and returns the captures of that match. The spans
    /// are offsets in bytes into the text of the haystack: each starts no
    /// later than it ends, and ends within the text.
    #[verifier::loop_isolation(false)]
    pub fn eval(self) -> (r: Option<Captures>)
        ensures
            r is Some == first_match(self.code(), self.haystack(), 0) is Some,
            r matches Some(c) ==> c@ == in_bytes(
                first_match(self.code(), self.haystack(), 0)->0,
                self.haystack(),
            ),
            r matches Some(c) ==> spans_within(c@, encode_utf8(self.haystack()).len() as int),
    {
        let mut this = self;
        if !this.scan() {
            return None;
        }
        let ghost text = this.haystack@;
        let mut out: Captures = Vec::new();
        let mut i: usize = 0;
        while i < this.captures.len()
            invariant
                i <= this.captures.len(),
                out.len() == i,
                forall|j: int| 0 <= j < i ==> #[trigger] out@[j] == in_bytes(this.captures@, text)[j],
                forall|j: int|
                    0 <= j < i ==> (#[trigger] out@[j]).1 <= out@[j].2 && out@[j].2 <= encode_utf8(
                        text,
                    ).len(),
            decreases this.captures.len() - i,
        {
            let (group, start, end) = this.captures[i];
            assert(this.captures@[i as int].1 <= this.captures@[i as int].2 <= text.len());
            proof {
                byte_offset_bounds(text, end as int);
                assert(byte_offset(text, start as int) <= byte_offset(text, end as int));
            }
            out.push((group, this.haystack.byte_at(start), this.haystack.byte_at(end)));
            i = i + 1;
        }
        assert(out@ =~= in_bytes(this.captures@, text));
        Some(out)
    }

    /// Searches as `eval` does, and returns the captures with their spans
    /// as indices into the code points of the haystack.
    pub fn search(self) -> (r: Option<Captures>)
        ensures
            r is Some == first_match(self.code(), self.haystack(), 0) is Some,
            r matches Some(c) ==> Some(c@) == first_match(self.code(), self.haystack(), 0),
            r matches Some(c) ==> spans_within(c@, self.haystack().len() as int),
    {
        let mut this = self;
        if this.scan() {
            Some(this.captures)
        } else {
            None
        }
    }

    /// Tries the offsets of the haystack from its start on; after the first
    /// attempt that matches, the captures are those of that match.
    #[verifier::loop_isolation(false)]
    fn scan(&mut self) -> (found: bool)
        ensures
            final(self).code == old(self).code,
            final(self).haystack == old(self).haystack,
            found == first_match(old(self).code(), old(self).haystack(), 0) is Some,
            found ==> Some(final(self).captures@) == first_match(
                old(self).code(),
                old(self).haystack(),
                0,
            ),
            found ==> spans_within(final(self).captures@, old(self).haystack().len() as int),
    {
        let mut left: usize = 0;
        while left < self.haystack.len()
            invariant
                left <= self.haystack@.len(),
                self.code == old(self).code,
                self.haystack == old(self).haystack,
                first_match(old(self).code(), old(self).haystack(), 0) == first_match(
                    old(self).code(),
                    old(self).haystack(),
                    left as int,
                ),
            decreases self.haystack@.len() - left,
        {
            if self.eval_once(left) {
                return true;
            }
            left = left + 1;
        }
        false
    }

    /// One attempt at offset `left`, with a fresh cursor.
    fn eval_once(&mut self, left: usize) -> (ok: bool)
        requires
            left <= old(self).haystack@.len(),
        ensures
            final(self).code == old(self).code,
            final(self).haystack == old(self).haystack,
            ok == match_at(old(self).code(), old(self).haystack(), left as int) is Some,
            ok ==> Some(final(self).captures@) == match_at(
                old(self).code(),
                old(self).haystack(),
                left as int,
            ),
            ok ==> spans_within(final(self).captures@, old(self).haystack().len() as int),
    {
        self.left = left;
        self.right = left;
        self.captures.clear();
        let code = self.code;
        self.check_group(&code.ast.root)
    }

    /// Records the state, to come back to it with `recall`.
    fn mark(&self) -> (here: Checkpoint)
        requires
            self.wf(),
        ensures
            self.holds(here, self.cursor()),
    {
        Checkpoint { right: self.right, captures: self.captures.len() }
    }

    /// Goes back to a recorded state.
    fn recall(&mut self, here: &Checkpoint, Ghost(c): Ghost<Cursor>)
        requires
            old(self).holds(*here, c),
        ensures
            final(self).same_subject(old(self)),
            final(self).wf(),
            final(self).cursor() == c,
    {
        self.right = here.right;
        self.captures.truncate(here.captures);
    }

    #[verifier::loop_isolation(false)]
    fn capture(&mut self, num: GroupNumber, here: &Checkpoint)
        requires
            old(self).wf(),
            here.right <= old(self).right,
        ensures
            final(self).extends(old(self)),
            final(self).right == old(self).right,
            final(self).captures@ == with_capture(
                old(self).captures@,
                num,
                here.right as int,
                old(self).right as int,
            ),
    {
        let mut i: usize = 0;
        while i < self.captures.len()
            invariant
                i <= self.captures.len(),
                *self == *old(self),
                forall|j: int| 0 <= j < i ==> (#[trigger] self.captures@[j]).0 != num,
            decreases self.captures.len() - i,
        {
            if self.captures[i].0 == num {
                proof {
                    prefix_self(self.captures@);
                }
                return ;
            }
            i = i + 1;
        }
        self.captures.push((num, here.right, self.right));
    }

    /// Consumes one code point, if there is one.
    fn bump(&mut self) -> (r: Option<char>)
        requires
            old(self).wf(),
        ensures
            final(self).extends(old(self)),
            final(self).captures == old(self).captures,
            r is Some == (old(self).right < old(self).haystack@.len()),
            r matches Some(ch) ==> ch == old(self).haystack@[old(self).right as int]
                && final(self).right == old(self).right + 1,
    {
        if self.right < self.haystack.len() {
            let ch = self.haystack.at(self.right);
            self.right = self.right + 1;
            Some(ch)
        } else {
            None
        }
    }

    /// Consumes one code point and tests it against a pattern character.
    fn check_char(&mut self, needle: char) -> (ok: bool)
        requires
            old(self).wf(),
        ensures
            final(self).extends(old(self)),
            final(self).captures == old(self).captures,
            ok == (old(self).right < old(self).haystack@.len() && char_matches(
                needle,
                old(self).haystack@[old(self).right as int],
                old(self).subject().ignore_case,
            )),
            ok ==> final(self).right == old(self).right + 1,
    {
        let ignore_case = self.code.ast.ignore_case;
        match self.bump() {
            Some(ch) => if ignore_case {
                eq_ignore_case(needle, ch)
            } else {
                needle == ch
            },
            None => false,
        }
    }

    /// Matches a string of pattern characters, one code point at a time.
    #[verifier::loop_isolation(false)]
    fn check_str(&mut self, string: &str) -> (ok: bool)
        requires
            old(self).wf(),
        ensures
            final(self).extends(old(self)),
            final(self).captures == old(self).captures,
            ok == text_at(string@, old(self).subject(), old(self).right as int),
            ok ==> final(self).right == old(self).right + string@.len(),
    {
        let needle = chars_of(string);
        let ghost start = self.right as int;
        let ghost s = self.subject();
        let mut i: usize = 0;
        while i < needle.len()
            invariant
                i <= needle.len(),
                needle@ == string@,
                self.extends(old(self)),
                self.subject() == s,
                self.captures == old(self).captures,
                self.right == start + i,
                forall|j: int|
                    0 <= j < i ==> char_matches(needle@[j], #[trigger] s.haystack[start + j], s.ignore_case),
            decreases needle.len() - i,
        {
            if !self.check_char(needle[i]) {
                assert(!text_at(string@, s, start)) by {
                    if text_at(string@, s, start) {
                        assert(char_matches(string@[i as int], s.haystack[start + i], s.ignore_case));
                    }
                }
                return false;
            }
            i = i + 1;
        }
        true
    }

    /// Matches one character against a class.
    fn check_class(&mut self, class: &Class) -> (ok: bool)
        requires
            old(self).wf(),
        ensures
            final(self).extends(old(self)),
            final(self).captures == old(self).captures,
            ok == (old(self).right < old(self).haystack@.len() && class_accepts(
                *class,
                old(self).haystack@[old(self).right as int],
            )),
            ok ==> final(self).right == old(self).right + 1,
    {
        let ch = match self.bump() {
            Some(ch) => ch,
            None => {
                return false;
            },
        };
        match class {
            Class::Dot => true,
            Class::Digit => is_digit(ch),
            Class::Word => is_alphabetic(ch),
            Class::Space => is_whitespace(ch),
            Class::Custom { invert, members } => {
                let found = listed(members, ch);
                found != *invert
            },
        }
    }

    /// Matches a group: its branches in order, the first that matches
    /// wins and the group captures what it matched. A group none of whose
    /// branches matches leaves the cursor and the captures as they were.
    #[verifier::loop_isolation(false)]
    fn check_group(&mut self, group: &Group<String>) -> (ok: bool)
        requires
            old(self).wf(),
        ensures
            final(self).extends(old(self)),
            ok == group_match(*group, old(self).subject(), old(self).cursor()) is Some,
            ok ==> Some(final(self).cursor()) == group_match(
                *group,
                old(self).subject(),
                old(self).cursor(),
            ),
            ok ==> final(self).right >= old(self).right,
            !ok ==> final(self).cursor() == old(self).cursor(),
        decreases *group,
    {
        let here = self.mark();
        let ghost s = self.subject();
        let ghost c = self.cursor();
        let mut i: usize = 0;
        while i < group.branches.len()
            invariant
                i <= group.branches.len(),
                self.extends(old(self)),
                self.cursor() == c,
                self.subject() == s,
                c == old(self).cursor(),
                s == old(self).subject(),
                self.holds(here, c),
                group_match(*group, s, c) == branches_match(
                    group.branches@,
                    i as int,
                    group.number,
                    s,
                    c,
                ),
            decreases group.branches.len() - i,
        {
            if self.check_branch(&group.branches[i]) {
                self.capture(group.number, &here);
                return true;
            } else {
                proof {
                    prefix_chain(old(self).captures@, c.captures, self.captures@);
                }
                self.recall(&here, Ghost(c));
            }
            i = i + 1;
        }
        false
    }

    #[verifier::loop_isolation(false)]
    fn check_branch(&mut self, branch: &Branch<String>) -> (ok: bool)
        requires
            old(self).wf(),
        ensures
            final(self).extends(old(self)),
            ok == branch_match(branch.leaves@, 0, old(self).subject(), old(self).cursor()) is Some,
            ok ==> Some(final(self).cursor()) == branch_match(
                branch.leaves@,
                0,
                old(self).subject(),
                old(self).cursor(),
            ),
            ok ==> final(self).right >= old(self).right,
        decreases *branch,
    {
        let ghost s = self.subject();
        let ghost c = self.cursor();
        let mut i: usize = 0;
        while i < branch.leaves.len()
            invariant
                i <= branch.leaves.len(),
                self.extends(old(self)),
                self.subject() == s,
                self.right >= old(self).right,
                branch_match(branch.leaves@, 0, s, c) == branch_match(
                    branch.leaves@,
                    i as int,
                    s,
                    self.cursor(),
                ),
            decreases branch.leaves.len() - i,
        {
            let ghost before = self.captures@;
            if !self.check_leaf(&branch.leaves[i]) {
                proof {
                    prefix_chain(old(self).captures@, before, self.captures@);
                }
                return false;
            }
            proof {
                prefix_chain(old(self).captures@, before, self.captures@);
            }
            i = i + 1;
        }
        true
    }

    /// Matches a leaf once, or as often as its repetition asks for.
    fn check_leaf(&mut self, leaf: &Leaf<String>) -> (ok: bool)
        requires
            old(self).wf(),
        ensures
            final(self).extends(old(self)),
            ok == leaf_match(*leaf, old(self).subject(), old(self).cursor()) is Some,
            ok ==> Some(final(self).cursor()) == leaf_match(
                *leaf,
                old(self).subject(),
                old(self).cursor(),
            ),
            ok ==> final(self).right >= old(self).right,
        decreases *leaf, 2int, 0int,
    {
        match leaf {
            Leaf::AnchorStart => self.right == self.left,
            Leaf::AnchorEnd => self.right == self.haystack.len(),
            Leaf::Group(group) => self.check_group(group),
            Leaf::Raw(text) => self.check_str(text.as_str()),
            Leaf::Payload(text) => self.check_str(text.as_str()),
            Leaf::Class(class) => self.check_class(class),
            Leaf::Repeat { .. } => self.repeat(leaf),
        }
    }

    /// Matches a quantified leaf and the rest of its branch: the least number
    /// of repetitions first, then as many more as the prefix gives, then the
    /// suffix at the last position where it matches.
    #[verifier::loop_isolation(false)]
    fn repeat(&mut self, leaf: &Leaf<String>) -> (ok: bool)
        requires
            old(self).wf(),
            *leaf is Repeat,
        ensures
            final(self).extends(old(self)),
            ok == leaf_match(*leaf, old(self).subject(), old(self).cursor()) is Some,
            ok ==> Some(final(self).cursor()) == leaf_match(
                *leaf,
                old(self).subject(),
                old(self).cursor(),
            ),
            ok ==> final(self).right >= old(self).right,
        decreases *leaf, 1int, 0int,
    {
        let ghost s = self.subject();
        let ghost c0 = self.cursor();
        match leaf {
            Leaf::Repeat { prefix, times, suffix } => {
                let remaining: usize = self.haystack.len() - self.right;
                let (min, max): (usize, usize) = match times {
                    Repeat::OneOrZero => (0, 1),
                    Repeat::ZeroOrMore => (0, remaining),
                    Repeat::OneOrMore => (1, remaining),
                    Repeat::Count(n) => (*n, *n),
                };
                assert((min as nat, max as nat) == bounds(*times, remaining as nat));
                let ghost whole = leaf_match(*leaf, s, c0);
                let mut k: usize = 0;
                while k < min
                    invariant
                        k <= min,
                        self.extends(old(self)),
                        self.subject() == s,
                        *leaf == (Leaf::Repeat { prefix: *prefix, times: *times, suffix: *suffix }),
                        self.right >= old(self).right,
                        repeat_exactly(*leaf, min as nat, s, c0) == repeat_exactly(
                            *leaf,
                            (min - k) as nat,
                            s,
                            self.cursor(),
                        ),
                    decreases min - k,
                {
                    let ghost before = self.captures@;
                    if !self.check_leaf(prefix) {
                        proof {
                            prefix_chain(old(self).captures@, before, self.captures@);
                        }
                        return false;
                    }
                    proof {
                        prefix_chain(old(self).captures@, before, self.captures@);
                    }
                    k = k + 1;
                }
                let mut budget: usize = if max >= min {
                    max - min
                } else {
                    0
                };
                let ghost total = repeat_greedy(*leaf, budget as nat, s, self.cursor());
                assert(whole == total);
                let mut stack: Vec<Checkpoint> = Vec::new();
                let ghost mut states: Seq<Cursor> = Seq::empty();
                let ghost base = old(self).captures@;
                let ghost left = old(self).right as int;
                let ghost len = self.haystack@.len() as int;
                let mut stuck = false;
                while budget > 0 && !stuck
                    invariant
                        self.extends(old(self)),
                        self.subject() == s,
                        stack.len() == states.len(),
                        !stuck ==> self.right >= left,
                        tracks(stack@, states, left, len),
                        chained(states, states.len() as int, base, self.captures@),
                        !stuck ==> total == match repeat_greedy(
                            *leaf,
                            budget as nat,
                            s,
                            self.cursor(),
                        ) {
                            Some(r) => Some(r),
                            None => give_back(suffix.leaves@, states, states.len() - 1, s),
                        },
                        stuck ==> total == give_back(suffix.leaves@, states, states.len() - 1, s),
                    decreases budget, if stuck { 0int } else { 1int },
                {
                    let ghost before = self.captures@;
                    let ghost cur = self.cursor();
                    let here = self.mark();
                    proof {
                        tracks_push(stack@, states, here, cur, left, len);
                        chained_push(states, base, cur);
                        give_back_ignores_later(suffix.leaves@, states, cur, states.len() - 1, s);
                        states = states.push(cur);
                    }
                    stack.push(here);
                    if self.check_leaf(prefix) {
                        budget = budget - 1;
                    } else {
                        stuck = true;
                    }
                    proof {
                        prefix_chain(base, before, self.captures@);
                        chained_grow(states, states.len() as int, base, before, self.captures@);
                    }
                }
                if !stuck {
                    let ghost cur = self.cursor();
                    let here = self.mark();
                    proof {
                        tracks_push(stack@, states, here, cur, left, len);
                        chained_push(states, base, cur);
                        give_back_ignores_later(suffix.leaves@, states, cur, states.len() - 1, s);
                        states = states.push(cur);
                    }
                    stack.push(here);
                }
                while stack.len() > 0
                    invariant
                        self.extends(old(self)),
                        self.subject() == s,
                        tracks(stack@, states, left, len),
                        chained(states, stack.len() as int, base, self.captures@),
                        total == give_back(suffix.leaves@, states, stack.len() - 1, s),
                    decreases stack.len(),
                {
                    let ghost k = stack.len() - 1;
                    proof {
                        tracks_pop(stack@, states, left, len);
                        chained_pop(states, stack.len() as int, base, self.captures@);
                    }
                    let here = stack.pop().unwrap();
                    self.recall(&here, Ghost(states[k]));
                    let ghost before = self.captures@;
                    if self.check_branch(suffix) {
                        proof {
                            prefix_chain(base, before, self.captures@);
                        }
                        return true;
                    }
                    proof {
                        prefix_chain(base, before, self.captures@);
                        chained_grow(states, k, base, before, self.captures@);
                    }
                }
                false
            },
            _ => false,
        }
    }
}

/// Whether one of the members of a custom class holds `ch`.
pub fn listed(members: &Vec<Member>, ch: char) -> (found: bool)
    ensures
        found == listed_in(members@, ch),
{
    let mut i: usize = 0;
    while i < members.len()
        invariant
            i <= members.len(),
            forall|j: int| 0 <= j < i ==> !(#[trigger] members@[j]).holds(ch),
        decreases members.len() - i,
    {
        if members[i].contains(ch) {
            return true;
        }
        i = i + 1;
    }
    false
}

/// Compares two code points whose lowercase mappings are `lower_lhs` and
/// `lower_rhs`: they are equal up to case when they are equal, or when the
/// mappings are equal code point by code point.
#[verifier::loop_isolation(false)]
pub fn eq_folded(lhs: char, rhs: char, lower_lhs: &Vec<char>, lower_rhs: &Vec<char>) -> (r: bool)
    ensures
        r == (lhs == rhs || lower_lhs@ == lower_rhs@),
{
    if lhs == rhs {
        return true;
    }
    if lower_lhs.len() != lower_rhs.len() {
        return false;
    }
    let mut i: usize = 0;
    while i < lower_lhs.len()
        invariant
            i <= lower_lhs.len(),
            lower_lhs.len() == lower_rhs.len(),
            forall|j: int| 0 <= j < i ==> lower_lhs@[j] == lower_rhs@[j],
        decreases lower_lhs.len() - i,
    {
        if lower_lhs[i] != lower_rhs[i] {
            return false;
        }
        i = i + 1;
    }
    assert(lower_lhs@ =~= lower_rhs@);
    true
}

/// Compares two code points up to case: they are equal, or their lowercase
/// mappings are equal code point by code point.
pub fn eq_ignore_case(lhs: char, rhs: char) -> (r: bool)
    ensures
        r == fold_eq(lhs, rhs),
{
    if lhs == rhs {
        return true;
    }
    let a = to_lowercase(lhs);
    let b = to_lowercase(rhs);
    eq_folded(lhs, rhs, &a, &b)
}

/// The numbers of the groups that a leaf holds.
pub open spec fn leaf_groups(leaf: Leaf<String>) -> Set<GroupNumber>
    decreases leaf,
{
    match leaf {
        Leaf::Group(group) => group_groups(group),
        Leaf::Repeat { prefix, times, suffix } => leaf_groups(*prefix).union(
            leaves_groups(suffix.leaves@, 0),
        ),
        _ => Set::empty(),
    }
}

/// The numbers of the groups that the leaves `leaves[i..]` hold.
pub open spec fn leaves_groups(leaves: Seq<Leaf<String>>, i: int) -> Set<GroupNumber>
    decreases leaves, leaves.len() - i,
{
    if 0 <= i < leaves.len() {
        leaf_groups(leaves[i]).union(leaves_groups(leaves, i + 1))
    } else {
        Set::empty()
    }
}

/// The number of a group and the numbers of the groups inside it.
pub open spec fn group_groups(group: Group<String>) -> Set<GroupNumber>
    decreases group,
{
    branches_groups(group.branches@, 0).insert(group.number)
}

/// The numbers of the groups that the branches `branches[i..]` hold.
pub open spec fn branches_groups(branches: Seq<Branch<String>>, i: int) -> Set<GroupNumber>
    decreases branches, branches.len() - i,
{
    if 0 <= i < branches.len() {
        leaves_groups(branches[i].leaves@, 0).union(branches_groups(branches, i + 1))
    } else {
        Set::empty()
    }
}

/// Whether every capture belongs to a group of `allowed`.
pub open spec fn captures_within(
    captures: Seq<(GroupNumber, usize, usize)>,
    allowed: Set<GroupNumber>,
) -> bool {
    forall|i: int| 0 <= i < captures.len() ==> allowed.contains((#[trigger] captures[i]).0)
}

proof fn leaf_keeps_within(leaf: Leaf<String>, s: Subject, c: Cursor, allowed: Set<GroupNumber>)
    requires
        leaf_groups(leaf).subset_of(allowed),
        captures_within(c.captures, allowed),
    ensures
        leaf_match(leaf, s, c) matches Some(r) ==> captures_within(r.captures, allowed),
    decreases leaf, 2int, 0int,
{
    match leaf {
        Leaf::Group(group) => {
            group_keeps_within(group, s, c, allowed);
        },
        Leaf::Repeat { prefix, times, suffix } => {
            let (min, max) = bounds(times, (s.haystack.len() - c.right) as nat);
            exactly_keeps_within(leaf, min, s, c, allowed);
            match repeat_exactly(leaf, min, s, c) {
                None => {},
                Some(c1) => {
                    greedy_keeps_within(leaf, extra(min, max), s, c1, allowed);
                },
            }
        },
        _ => {},
    }
}

proof fn exactly_keeps_within(
    leaf: Leaf<String>,
    n: nat,
    s: Subject,
    c: Cursor,
    allowed: Set<GroupNumber>,
)
    requires
        leaf_groups(leaf).subset_of(allowed),
        captures_within(c.captures, allowed),
    ensures
        repeat_exactly(leaf, n, s, c) matches Some(r) ==> captures_within(r.captures, allowed),
    decreases leaf, 1int, n,
{
    if n > 0 {
        match leaf {
            Leaf::Repeat { prefix, times, suffix } => {
                leaf_keeps_within(*prefix, s, c, allowed);
                match leaf_match(*prefix, s, c) {
                    None => {},
                    Some(c1) => {
                        exactly_keeps_within(leaf, (n - 1) as nat, s, c1, allowed);
                    },
                }
            },
            _ => {},
        }
    }
}

proof fn greedy_keeps_within(
    leaf: Leaf<String>,
    budget: nat,
    s: Subject,
    c: Cursor,
    allowed: Set<GroupNumber>,
)
    requires
        leaf_groups(leaf).subset_of(allowed),
        captures_within(c.captures, allowed),
    ensures
        repeat_greedy(leaf, budget, s, c) matches Some(r) ==> captures_within(r.captures, allowed),
    decreases leaf, 0int, budget,
{
    match leaf {
        Leaf::Repeat { prefix, times, suffix } => {
            branch_keeps_within(suffix.leaves@, 0, s, c, allowed);
            if budget > 0 {
                leaf_keeps_within(*prefix, s, c, allowed);
                match leaf_match(*prefix, s, c) {
                    None => {},
                    Some(c1) => {
                        greedy_keeps_within(leaf, (budget - 1) as nat, s, c1, allowed);
                    },
                }
            }
        },
        _ => {},
    }
}

proof fn branch_keeps_within(
    leaves: Seq<Leaf<String>>,
    i: int,
    s: Subject,
    c: Cursor,
    allowed: Set<GroupNumber>,
)
    requires
        leaves_groups(leaves, i).subset_of(allowed),
        captures_within(c.captures, allowed),
    ensures
        branch_match(leaves, i, s, c) matches Some(r) ==> captures_within(r.captures, allowed),
    decreases leaves, leaves.len() - i,
{
    if 0 <= i < leaves.len() {
        leaf_keeps_within(leaves[i], s, c, allowed);
        match leaf_match(leaves[i], s, c) {
            None => {},
            Some(c1) => {
                branch_keeps_within(leaves, i + 1, s, c1, allowed);
            },
        }
    }
}

proof fn group_keeps_within(group: Group<String>, s: Subject, c: Cursor, allowed: Set<GroupNumber>)
    requires
        group_groups(group).subset_of(allowed),
        captures_within(c.captures, allowed),
    ensures
        group_match(group, s, c) matches Some(r) ==> captures_within(r.captures, allowed),
    decreases group,
{
    assert(group_groups(group).contains(group.number));
    branches_keep_within(group.branches@, 0, group.number, s, c, allowed);
}

proof fn branches_keep_within(
    branches: Seq<Branch<String>>,
    i: int,
    number: GroupNumber,
    s: Subject,
    c: Cursor,
    allowed: Set<GroupNumber>,
)
    requires
        branches_groups(branches, i).subset_of(allowed),
        allowed.contains(number),
        captures_within(c.captures, allowed),
    ensures
        branches_match(branches, i, number, s, c) matches Some(r) ==> captures_within(
            r.captures,
            allowed,
        ),
    decreases branches, branches.len() - i,
{
    if 0 <= i < branches.len() {
        branch_keeps_within(branches[i].leaves@, 0, s, c, allowed);
        branches_keep_within(branches, i + 1, number, s, c, allowed);
    }
}

/// Whether no two captures belong to the same group.
pub open spec fn one_each(captures: Seq<(GroupNumber, usize, usize)>) -> bool {
    forall|i: int, j: int|
        0 <= i < j < captures.len() ==> (#[trigger] captures[i]).0 != (#[trigger] captures[j]).0
}

proof fn capture_keeps_one_each(
    captures: Seq<(GroupNumber, usize, usize)>,
    num: GroupNumber,
    start: int,
    end: int,
)
    requires
        one_each(captures),
    ensures
        one_each(with_capture(captures, num, start, end)),
{
    if !has_capture(captures, num) {
        let next = captures.push((num, start as usize, end as usize));
        assert forall|i: int, j: int| 0 <= i < j < next.len() implies (#[trigger] next[i]).0 != (
        #[trigger] next[j]).0 by {
            if j == captures.len() {
                assert(captures[i].0 != num);
            } else {
                assert(captures[i].0 != captures[j].0);
            }
        }
    }
}

proof fn leaf_keeps_one_each(leaf: Leaf<String>, s: Subject, c: Cursor)
    requires
        one_each(c.captures),
    ensures
        leaf_match(leaf, s, c) matches Some(r) ==> one_each(r.captures),
    decreases leaf, 2int, 0int,
{
    match leaf {
        Leaf::Group(group) => {
            group_keeps_one_each(group, s, c);
        },
        Leaf::Repeat { prefix, times, suffix } => {
            let (min, max) = bounds(times, (s.haystack.len() - c.right) as nat);
            exactly_keeps_one_each(leaf, min, s, c);
            match repeat_exactly(leaf, min, s, c) {
                None => {},
                Some(c1) => {
                    greedy_keeps_one_each(leaf, extra(min, max), s, c1);
                },
            }
        },
        _ => {},
    }
}

proof fn exactly_keeps_one_each(leaf: Leaf<String>, n: nat, s: Subject, c: Cursor)
    requires
        one_each(c.captures),
    ensures
        repeat_exactly(leaf, n, s, c) matches Some(r) ==> one_each(r.captures),
    decreases leaf, 1int, n,
{
    if n > 0 {
        match leaf {
            Leaf::Repeat { prefix, times, suffix } => {
                leaf_keeps_one_each(*prefix, s, c);
                match leaf_match(*prefix, s, c) {
                    None => {},
                    Some(c1) => {
                        exactly_keeps_one_each(leaf, (n - 1) as nat, s, c1);
                    },
                }
            },
            _ => {},
        }
    }
}

proof fn greedy_keeps_one_each(leaf: Leaf<String>, budget: nat, s: Subject, c: Cursor)
    requires
        one_each(c.captures),
    ensures
        repeat_greedy(leaf, budget, s, c) matches Some(r) ==> one_each(r.captures),
    decreases leaf, 0int, budget,
{
    match leaf {
        Leaf::Repeat { prefix, times, suffix } => {
            branch_keeps_one_each(suffix.leaves@, 0, s, c);
            if budget > 0 {
                leaf_keeps_one_each(*prefix, s, c);
                match leaf_match(*prefix, s, c) {
                    None => {},
                    Some(c1) => {
                        greedy_keeps_one_each(leaf, (budget - 1) as nat, s, c1);
                    },
                }
            }
        },
        _ => {},
    }
}

proof fn branch_keeps_one_each(leaves: Seq<Leaf<String>>, i: int, s: Subject, c: Cursor)
    requires
        one_each(c.captures),
    ensures
        branch_match(leaves, i, s, c) matches Some(r) ==> one_each(r.captures),
    decreases leaves, leaves.len() - i,
{
    if 0 <= i < leaves.len() {
        leaf_keeps_one_each(leaves[i], s, c);
        match leaf_match(leaves[i], s, c) {
            None => {},
            Some(c1) => {
                branch_keeps_one_each(leaves, i + 1, s, c1);
            },
        }
    }
}

proof fn group_keeps_one_each(group: Group<String>, s: Subject, c: Cursor)
    requires
        one_each(c.captures),
    ensures
        group_match(group, s, c) matches Some(r) ==> one_each(r.captures),
    decreases group,
{
    branches_keep_one_each(group.branches@, 0, group.number, s, c);
}

proof fn branches_keep_one_each(
    branches: Seq<Branch<String>>,
    i: int,
    number: GroupNumber,
    s: Subject,
    c: Cursor,
)
    requires
        one_each(c.captures),
    ensures
        branches_match(branches, i, number, s, c) matches Some(r) ==> one_each(r.captures),
    decreases branches, branches.len() - i,
{
    if 0 <= i < branches.len() {
        branch_keeps_one_each(branches[i].leaves@, 0, s, c);
        match branch_match(branches[i].leaves@, 0, s, c) {
            Some(c1) => {
                capture_keeps_one_each(c1.captures, number, c.right, c1.right);
            },
            None => {
                branches_keep_one_each(branches, i + 1, number, s, c);
            },
        }
    }
}

/// A group captures at most once in a match: no two captures of an attempt
/// belong to the same group.
pub proof fn attempt_captures_each_group_once(code: Compiled, haystack: Seq<char>, left: int)
    ensures
        match_at(code, haystack, left) matches Some(captures) ==> one_each(captures),
{
    group_keeps_one_each(
        code.ast.root,
        Subject { haystack, left, ignore_case: code.ast.ignore_case },
        Cursor { right: left, captures: Seq::empty() },
    );
}

/// Every capture of one attempt belongs to a group that the pattern holds.
pub proof fn attempt_captures_groups_of_pattern(code: Compiled, haystack: Seq<char>, left: int)
    ensures
        match_at(code, haystack, left) matches Some(captures) ==> captures_within(
            captures,
            group_groups(code.ast.root),
        ),
{
    group_keeps_within(
        code.ast.root,
        Subject { haystack, left, ignore_case: code.ast.ignore_case },
        Cursor { right: left, captures: Seq::empty() },
        group_groups(code.ast.root),
    );
}

/// The search is leftmost-first: what it returns is what the attempt at some
/// offset returns, no attempt at an earlier offset matches, a search that
/// returns nothing means that no attempt matches, and every capture belongs
/// to a group that the pattern holds.
pub proof fn search_is_leftmost(code: Compiled, haystack: Seq<char>, from: int)
    requires
        0 <= from,
    ensures
        match first_match(code, haystack, from) {
            Some(captures) => {
                &&& exists|at: int|
                    {
                        &&& from <= at < haystack.len()
                        &&& #[trigger] match_at(code, haystack, at) == Some(captures)
                        &&& forall|l: int| from <= l < at ==> #[trigger] match_at(code, haystack, l) is None
                    }
                &&& captures_within(captures, group_groups(code.ast.root))
            },
            None => forall|l: int|
                from <= l < haystack.len() ==> #[trigger] match_at(code, haystack, l) is None,
        },
    decreases haystack.len() - from,
{
    if from < haystack.len() {
        attempt_captures_groups_of_pattern(code, haystack, from);
        match match_at(code, haystack, from) {
            Some(c) => {
                assert(match_at(code, haystack, from) == Some(c));
            },
            None => {
                search_is_leftmost(code, haystack, from + 1);
                match first_match(code, haystack, from + 1) {
                    Some(captures) => {
                        let at = choose|at: int|
                            {
                                &&& from + 1 <= at < haystack.len()
                                &&& #[trigger] match_at(code, haystack, at) == Some(captures)
                                &&& forall|l: int|
                                    from + 1 <= l < at ==> #[trigger] match_at(code, haystack, l) is None
                            };
                        assert(match_at(code, haystack, at) == Some(captures));
                    },
                    None => {},
                }
            },
        }
    }
}

} // verus!
