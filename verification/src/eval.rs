//! The interpreter: a stack machine over an assembled module.

use vstd::prelude::*;
use crate::error::Error;
use crate::ident::{valid_ident, Ident, Interned, Str, Strings};
use crate::opcode::{function_at, Argc, Binop, Func, InterpretedFn, Module, NativeFn, Op};
use crate::pattern::compile::{ast_maps, binding, bound, group_holds, specialize, unbound, Compiled, Env};
use crate::pattern::matcher::{first_match, spans_within, Eval, GroupNumber};
use crate::pattern::Var;
use crate::text::{chars_of, push_str, string_of};
use crate::value::{
    added, divided, find_entry, indexed, inserted, is_mismatch, multiplied, position_of,
    subtracted, value_text, Extract, Heap, List, PatternRef, Record, Value,
};

verus! {

/// The body that a frame runs: the `BEGIN` body, or the body of the function
/// at an index of the module's table.
#[derive(Copy, Clone, Debug, PartialEq, Eq, Structural)]
pub enum Code {
    Begin,
    Function(usize),
}

/// The activation record of a call. The slots below `mark` are the
/// arguments and the declared locals; the values from `mark` on are the
/// operand stack.
pub struct Frame {
    pub code: Code,
    pub pc: usize,
    pub mark: usize,
    pub locals: Vec<Value>,
    pub groups: Vec<(GroupNumber, Str)>,
}

/// What a run changes: the current frame, the frames of the callers, the
/// heap, the globals, and the lines that `print` has written.
pub struct Machine {
    pub frame: Frame,
    pub saved: Vec<Frame>,
    pub heap: Heap,
    pub globals: Record,
    pub output: Vec<String>,
}

/// The instructions of a body.
pub open spec fn code_of(main: Module, code: Code) -> Seq<Op> {
    match code {
        Code::Begin => main.begin@,
        Code::Function(i) => if i < main.functions@.len() {
            match main.functions@[i as int].2 {
                Func::Interpreted(f) => f@,
                Func::Native(_) => Seq::empty(),
            }
        } else {
            Seq::empty()
        },
    }
}

impl Frame {
    /// The reserved slots are there: the mark is no higher than the locals.
    pub open spec fn wf(self) -> bool {
        self.mark <= self.locals@.len()
    }
}

/// What a pop gives: the top of the operand stack and what is below it. An
/// empty frame underflows; a frame whose operand stack is empty would lose
/// a local.
pub open spec fn popped(locals: Seq<Value>, mark: nat) -> Result<(Value, Seq<Value>), Error> {
    if locals.len() == 0 {
        Err(Error::StackUnderflow)
    } else if locals.len() <= mark {
        Err(Error::PoppedLocalVar)
    } else {
        Ok((locals.last(), locals.drop_last()))
    }
}

/// What capturing `len` values gives: the top `len` values of the operand
/// stack in the order they were pushed, and what is below them.
pub open spec fn captured(locals: Seq<Value>, mark: nat, len: nat) -> Result<
    (Seq<Value>, Seq<Value>),
    Error,
> {
    if len > locals.len() {
        Err(Error::ListTooLong)
    } else if locals.len() - len < mark {
        Err(Error::PoppedLocalVar)
    } else {
        Ok((locals.subrange(locals.len() - len, locals.len() as int), locals.take(locals.len() - len)))
    }
}

/// The text of the first capture of group `num`.
pub open spec fn group_text(groups: Seq<(GroupNumber, Str)>, num: GroupNumber) -> Option<Str>
    decreases groups.len(),
{
    if groups.len() == 0 {
        None
    } else {
        match group_text(groups.drop_last(), num) {
            Some(s) => Some(s),
            None => if groups.last().0 == num {
                Some(groups.last().1)
            } else {
                None
            },
        }
    }
}

/// The renderings of values, one after the other, with `sep` between them.
pub open spec fn joined(items: Seq<Value>, sep: Seq<char>, h: Heap) -> Seq<char>
    decreases items.len(),
{
    if items.len() == 0 {
        Seq::empty()
    } else if items.len() == 1 {
        value_text(items.last(), h, h.depth())
    } else {
        joined(items.drop_last(), sep, h) + sep + value_text(items.last(), h, h.depth())
    }
}

impl Machine {
    /// Every frame has its reserved slots, and the heap holds the record
    /// of the globals.
    pub open spec fn wf(self) -> bool {
        &&& self.frame.wf()
        &&& forall|i: int| 0 <= i < self.saved@.len() ==> (#[trigger] self.saved@[i]).wf()
        &&& self.globals.index < self.heap.records@.len()
    }

    /// Whether `post` is `self` but for the current frame.
    pub open spec fn same_but_frame(self, post: Machine) -> bool {
        &&& post.saved == self.saved
        &&& post.heap == self.heap
        &&& post.globals == self.globals
        &&& post.output == self.output
    }

    /// Whether `post` is `self` but for the locals of the current frame.
    pub open spec fn same_but_locals(self, post: Machine) -> bool {
        &&& self.same_but_frame(post)
        &&& post.frame.code == self.frame.code
        &&& post.frame.pc == self.frame.pc
        &&& post.frame.mark == self.frame.mark
        &&& post.frame.groups == self.frame.groups
    }

    /// Pops the top of the operand stack.
    pub fn pop(&mut self) -> (r: Result<Value, Error>)
        requires
            old(self).wf(),
        ensures
            final(self).wf(),
            old(self).same_but_locals(*final(self)),
            match popped(old(self).frame.locals@, old(self).frame.mark as nat) {
                Ok((v, rest)) => r == Ok::<Value, Error>(v) && final(self).frame.locals@ == rest,
                Err(e) => r == Err::<Value, Error>(e) && *final(self) == *old(self),
            },
    {
        if self.frame.locals.len() == 0 {
            return Err(Error::StackUnderflow);
        }
        if self.frame.locals.len() <= self.frame.mark {
            return Err(Error::PoppedLocalVar);
        }
        Ok(self.frame.locals.pop().unwrap())
    }

    /// Pushes a value on the operand stack.
    pub fn push(&mut self, item: Value)
        requires
            old(self).wf(),
        ensures
            final(self).wf(),
            old(self).same_but_locals(*final(self)),
            final(self).frame.locals@ == old(self).frame.locals@.push(item),
    {
        self.frame.locals.push(item);
    }

    /// Reads the local in slot `index`.
    pub fn read(&self, index: usize) -> (r: Result<Value, Error>)
        requires
            self.wf(),
        ensures
            index < self.frame.mark ==> r == Ok::<Value, Error>(self.frame.locals@[index as int]),
            index >= self.frame.mark ==> r == Err::<Value, Error>(
                Error::LocalVarOutOfBounds { index },
            ),
    {
        if index >= self.frame.mark {
            return Err(Error::LocalVarOutOfBounds { index });
        }
        Ok(self.frame.locals[index].clone())
    }

    /// Writes the local in slot `index`.
    pub fn write(&mut self, item: Value, index: usize) -> (r: Result<(), Error>)
        requires
            old(self).wf(),
        ensures
            final(self).wf(),
            old(self).same_but_locals(*final(self)),
            index < old(self).frame.mark ==> r == Ok::<(), Error>(()) && final(self).frame.locals@
                == old(self).frame.locals@.update(index as int, item),
            index >= old(self).frame.mark ==> r == Err::<(), Error>(
                Error::LocalVarOutOfBounds { index },
            ) && final(self).frame.locals@ == old(self).frame.locals@,
    {
        if index >= self.frame.mark {
            Err(Error::LocalVarOutOfBounds { index })
        } else {
            self.frame.locals[index] = item;
            Ok(())
        }
    }

    /// Takes the top `len` values off the operand stack, in the order they
    /// were pushed.
    pub fn capture(&mut self, len: usize) -> (r: Result<Vec<Value>, Error>)
        requires
            old(self).wf(),
        ensures
            final(self).wf(),
            old(self).same_but_locals(*final(self)),
            match captured(old(self).frame.locals@, old(self).frame.mark as nat, len as nat) {
                Ok((items, rest)) => r matches Ok(v) && v@ == items && final(self).frame.locals@
                    == rest,
                Err(e) => r == Err::<Vec<Value>, Error>(e) && final(self).frame.locals@ == old(self).frame.locals@,
            },
    {
        if len > self.frame.locals.len() {
            return Err(Error::ListTooLong);
        }
        let start: usize = self.frame.locals.len() - len;
        if start < self.frame.mark {
            return Err(Error::PoppedLocalVar);
        }
        let items = self.frame.locals.split_off(start);
        Ok(items)
    }
}

/// The value that stands for a truth value.
pub open spec fn truth(b: bool) -> Value {
    if b {
        Value::Int(1)
    } else {
        Value::Int(0)
    }
}

/// Whether `post` is `pre` but for the heap, the output, and the locals and
/// the program counter of the current frame.
pub open spec fn kept(pre: Machine, post: Machine) -> bool {
    &&& post.saved == pre.saved
    &&& post.globals == pre.globals
    &&& post.frame.code == pre.frame.code
    &&& post.frame.mark == pre.frame.mark
    &&& post.frame.groups == pre.frame.groups
}

/// Whether `post` is `pre` with other locals, and nothing else changed but
/// the program counter.
pub open spec fn stacked(pre: Machine, post: Machine, locals: Seq<Value>) -> bool {
    &&& kept(pre, post)
    &&& post.heap == pre.heap
    &&& post.output == pre.output
    &&& post.frame.locals@ == locals
}

/// Whether `post` is where an instruction that fails leaves `pre`: the
/// program counter has moved on to the next instruction, the frame has the
/// given locals, what the instruction took before it failed being gone,
/// and nothing else has changed.
pub open spec fn halted(pre: Machine, post: Machine, locals: Seq<Value>) -> bool {
    &&& stacked(pre, post, locals)
    &&& post.frame.pc == pre.frame.pc + 1
}

/// What a host function does when it is called with `argv`. A function
/// that the host keeps is not run: the call fails with `HostCall`, which
/// hands the number of the function and the arguments to the host.
pub open spec fn native_done(
    native: NativeFn,
    argv: Seq<Value>,
    pre: Machine,
    post: Machine,
    r: Result<Value, Error>,
) -> bool {
    match native {
        NativeFn::Print => {
            &&& r == Ok::<Value, Error>(Value::Nil(()))
            &&& post.heap == pre.heap
            &&& post.output@.len() == pre.output@.len() + 1
            &&& post.output@.drop_last() == pre.output@
            &&& post.output@.last()@ == joined(argv, " "@, pre.heap)
        },
        NativeFn::Str => {
            &&& post.heap == pre.heap
            &&& post.output == pre.output
            &&& r matches Ok(Value::Str(s))
            &&& s@ == joined(argv, Seq::empty(), pre.heap)
        },
        NativeFn::Len => {
            &&& post.heap == pre.heap
            &&& post.output == pre.output
            &&& if argv.len() == 0 {
                r == Err::<Value, Error>(Error::StackUnderflow)
            } else {
                match argv.last() {
                    Value::List(l) => if l.index < pre.heap.lists@.len() {
                        let len = pre.heap.lists@[l.index as int]@.len();
                        if len <= i32::MAX {
                            r == Ok::<Value, Error>(Value::Int(len as i32))
                        } else {
                            r == Err::<Value, Error>(Error::ListTooLong)
                        }
                    } else {
                        r == Err::<Value, Error>(Error::IndexOutOfBounds)
                    },
                    other => r matches Err(e) && is_mismatch(e, "List"@, other.kind()),
                }
            }
        },
        NativeFn::Split => {
            &&& post.heap == pre.heap
            &&& post.output == pre.output
            &&& r matches Err(Error::UnimplementedFeature { feature })
            &&& feature@ == "pattern matching"@
        },
        NativeFn::New => {
            &&& post.output == pre.output
            &&& r == Ok::<Value, Error>(
                Value::Record(Record { index: pre.heap.records@.len() as usize }),
            )
            &&& post.heap.records@.len() == pre.heap.records@.len() + 1
            &&& post.heap.records@.drop_last() == pre.heap.records@
            &&& post.heap.records@.last()@.len() == 0
            &&& post.heap.lists == pre.heap.lists
            &&& post.heap.patterns == pre.heap.patterns
        },
        NativeFn::Assert => {
            &&& post.heap == pre.heap
            &&& post.output == pre.output
            &&& if argv.len() == 0 {
                r == Err::<Value, Error>(Error::StackUnderflow)
            } else if argv[0].truthy() {
                r == Ok::<Value, Error>(Value::Nil(()))
            } else {
                r matches Err(Error::Assert { expr }) && expr@ == value_text(
                    argv[0],
                    pre.heap,
                    pre.heap.depth(),
                )
            }
        },
        NativeFn::Host(id) => {
            &&& post.heap == pre.heap
            &&& post.output == pre.output
            &&& r matches Err(Error::HostCall { id: number, argv: handed })
            &&& number == id
            &&& handed@ == argv
        },
        NativeFn::AssertEq => {
            &&& post.heap == pre.heap
            &&& post.output == pre.output
            &&& if argv.len() < 2 {
                r == Err::<Value, Error>(Error::StackUnderflow)
            } else if argv[0].same(argv[1]) {
                r == Ok::<Value, Error>(Value::Nil(()))
            } else {
                r matches Err(Error::Assert { expr }) && expr@ == value_text(
                    argv[0],
                    pre.heap,
                    pre.heap.depth(),
                ) + " eq "@ + value_text(argv[1], pre.heap, pre.heap.depth())
            }
        },
    }
}

impl Machine {
    /// Appends the renderings of `items`, with `sep` between them, to `out`.
    fn join(&self, items: &Vec<Value>, sep: &str, out: &mut String)
        ensures
            final(out)@ == old(out)@ + joined(items@, sep@, self.heap),
    {
        let mut i: usize = 0;
        while i < items.len()
            invariant
                i <= items.len(),
                out@ == old(out)@ + joined(items@.take(i as int), sep@, self.heap),
            decreases items.len() - i,
        {
            proof {
                assert(items@.take(i + 1).drop_last() =~= items@.take(i as int));
            }
            if i > 0 {
                push_str(out, sep);
            }
            let text = items[i].to_string(&self.heap);
            push_str(out, text.as_str());
            i = i + 1;
        }
        assert(items@.take(items.len() as int) =~= items@);
    }

    /// Runs a function of the host on `argv`.
    pub fn call_native(&mut self, native: NativeFn, argv: Vec<Value>) -> (r: Result<Value, Error>)
        requires
            old(self).wf(),
        ensures
            final(self).wf(),
            final(self).frame == old(self).frame,
            final(self).saved == old(self).saved,
            final(self).globals == old(self).globals,
            native_done(native, argv@, *old(self), *final(self), r),
    {
        match native {
            NativeFn::Print => {
                let mut line = String::new();
                self.join(&argv, " ", &mut line);
                self.output.push(line);
                assert(self.output@.drop_last() =~= old(self).output@);
                Ok(Value::Nil(()))
            },
            NativeFn::Str => {
                let mut text = String::new();
                self.join(&argv, "", &mut text);
                proof {
                    reveal_strlit("");
                    assert(""@ =~= Seq::<char>::empty());
                }
                Ok(Value::Str(text))
            },
            NativeFn::Len => {
                if argv.len() == 0 {
                    return Err(Error::StackUnderflow);
                }
                match &argv[argv.len() - 1] {
                    Value::List(l) => {
                        if l.index >= self.heap.lists.len() {
                            return Err(Error::IndexOutOfBounds);
                        }
                        let len = self.heap.lists[l.index].len();
                        if len <= 0x7fff_ffff {
                            Ok(Value::Int(len as i32))
                        } else {
                            Err(Error::ListTooLong)
                        }
                    },
                    other => Err(Error::TypeMismatch { expected: "List", found: other.kind_name() }),
                }
            },
            NativeFn::Split => Err(Error::UnimplementedFeature { feature: "pattern matching" }),
            NativeFn::New => {
                let rec = self.heap.alloc_record();
                assert(self.heap.records@.drop_last() =~= old(self).heap.records@);
                Ok(Value::Record(rec))
            },
            NativeFn::Assert => {
                if argv.len() == 0 {
                    return Err(Error::StackUnderflow);
                }
                if argv[0].is_truthy() {
                    Ok(Value::Nil(()))
                } else {
                    Err(Error::Assert { expr: argv[0].to_string(&self.heap) })
                }
            },
            NativeFn::Host(id) => Err(Error::HostCall { id, argv }),
            NativeFn::AssertEq => {
                if argv.len() < 2 {
                    return Err(Error::StackUnderflow);
                }
                if argv[0].equals(&argv[1]) {
                    Ok(Value::Nil(()))
                } else {
                    let mut expr = argv[0].to_string(&self.heap);
                    push_str(&mut expr, " eq ");
                    let rhs = argv[1].to_string(&self.heap);
                    push_str(&mut expr, rhs.as_str());
                    Err(Error::Assert { expr })
                }
            },
        }
    }
}

/// Whether the captures of a match are held as the groups of a frame:
/// each group's number with the text that it matched.
pub open spec fn groups_hold(
    groups: Seq<(GroupNumber, Str)>,
    captures: Seq<(GroupNumber, usize, usize)>,
    text: Seq<char>,
) -> bool {
    &&& groups.len() == captures.len()
    &&& forall|i: int|
        0 <= i < groups.len() ==> (#[trigger] groups[i]).0 == captures[i].0 && groups[i].1@
            == text.subrange(captures[i].1 as int, captures[i].2 as int)
}

/// What matching `text` against `pat` does: it gives 1 and sets the groups
/// of the frame to the captures of the leftmost match, or gives 0 and
/// clears the groups. Where it fails, the groups stay.
pub open spec fn matched(pat: Value, text: Value, pre: Machine, post: Machine, v: Result<Value, Error>) -> bool {
    match pat {
        Value::Pattern(p) => match text {
            Value::Str(t) => if p.index < pre.heap.patterns@.len() {
                match first_match(pre.heap.patterns@[p.index as int], t@, 0) {
                    Some(captures) => v == Ok::<Value, Error>(truth(true)) && groups_hold(
                        post.frame.groups@,
                        captures,
                        t@,
                    ),
                    None => v == Ok::<Value, Error>(truth(false)) && post.frame.groups@.len() == 0,
                }
            } else {
                v == Err::<Value, Error>(Error::IndexOutOfBounds) && post.frame.groups
                    == pre.frame.groups
            },
            other => v matches Err(e) && is_mismatch(e, "Str"@, other.kind()) && post.frame.groups
                == pre.frame.groups,
        },
        other => v matches Err(e) && is_mismatch(e, "Pattern"@, other.kind()) && post.frame.groups
            == pre.frame.groups,
    }
}

/// What a binary operator makes of two operands.
pub open spec fn applied(
    op: Binop,
    lhs: Value,
    rhs: Value,
    pre: Machine,
    post: Machine,
    v: Result<Value, Error>,
) -> bool {
    match op {
        Binop::ADD => added(lhs, rhs, pre.heap, post.heap, v) && post.frame.groups
            == pre.frame.groups,
        Binop::SUB => subtracted(lhs, rhs, v) && post.heap == pre.heap && post.frame.groups
            == pre.frame.groups,
        Binop::DIV => divided(lhs, rhs, v) && post.heap == pre.heap && post.frame.groups
            == pre.frame.groups,
        Binop::MUL => multiplied(lhs, rhs, v) && post.heap == pre.heap && post.frame.groups
            == pre.frame.groups,
        Binop::IDX => indexed(lhs, rhs, pre.heap, v) && post.heap == pre.heap && post.frame.groups
            == pre.frame.groups,
        Binop::EQ => v == Ok::<Value, Error>(truth(lhs.same(rhs))) && post.heap == pre.heap
            && post.frame.groups == pre.frame.groups,
        Binop::NE => v == Ok::<Value, Error>(truth(!lhs.same(rhs))) && post.heap == pre.heap
            && post.frame.groups == pre.frame.groups,
        Binop::MATCH => matched(rhs, lhs, pre, post, v) && post.heap == pre.heap,
    }
}

/// What an instruction leaves on the stack when it succeeds, or the error
/// with which it fails.
pub open spec fn outcome(r: Result<(), Error>, locals: Seq<Value>) -> Result<Value, Error> {
    match r {
        Ok(_) => Ok(locals.last()),
        Err(e) => Err(e),
    }
}

/// Whether `post` is `pre` but for the heap, the output, and the locals,
/// the groups and the program counter of the current frame.
pub open spec fn framed(pre: Machine, post: Machine) -> bool {
    &&& post.saved == pre.saved
    &&& post.globals == pre.globals
    &&& post.frame.code == pre.frame.code
    &&& post.frame.mark == pre.frame.mark
}

/// What `BINOP` does: it pops the right operand, then the left one, and
/// pushes what the operator makes of them. Where it fails, the operands
/// that it has popped are gone and nothing else has changed.
pub open spec fn binop_done(op: Binop, pre: Machine, post: Machine, r: Result<(), Error>) -> bool {
    match popped(pre.frame.locals@, pre.frame.mark as nat) {
        Err(e) => r == Err::<(), Error>(e) && stacked(pre, post, pre.frame.locals@),
        Ok((rhs, below)) => match popped(below, pre.frame.mark as nat) {
            Err(e) => r == Err::<(), Error>(e) && stacked(pre, post, below),
            Ok((lhs, rest)) => {
                &&& applied(op, lhs, rhs, pre, post, outcome(r, post.frame.locals@))
                &&& r is Ok ==> framed(pre, post) && post.output == pre.output
                    && post.frame.locals@.len() == rest.len() + 1 && post.frame.locals@.drop_last()
                    == rest
                &&& r is Err ==> stacked(pre, post, rest)
            },
        },
    }
}

/// What `INS` does: it pops the container, the key and the value, and
/// stores the value in the container under the key. Where it fails, the
/// operands that it has popped are gone and nothing else has changed.
pub open spec fn ins_done(pre: Machine, post: Machine, r: Result<(), Error>) -> bool {
    match popped(pre.frame.locals@, pre.frame.mark as nat) {
        Err(e) => r == Err::<(), Error>(e) && stacked(pre, post, pre.frame.locals@),
        Ok((lhs, below)) => match popped(below, pre.frame.mark as nat) {
            Err(e) => r == Err::<(), Error>(e) && stacked(pre, post, below),
            Ok((idx, lower)) => match popped(lower, pre.frame.mark as nat) {
                Err(e) => r == Err::<(), Error>(e) && stacked(pre, post, lower),
                Ok((rhs, rest)) => {
                    &&& inserted(lhs, idx, rhs, pre.heap, post.heap, r)
                    &&& kept(pre, post)
                    &&& post.output == pre.output
                    &&& post.frame.locals@ == rest
                    &&& r is Err ==> post.heap == pre.heap
                },
            },
        },
    }
}

/// What `LIST` does: it takes the top `len` values and pushes a new list
/// of them.
pub open spec fn list_done(len: usize, pre: Machine, post: Machine, r: Result<(), Error>) -> bool {
    match captured(pre.frame.locals@, pre.frame.mark as nat, len as nat) {
        Err(e) => r == Err::<(), Error>(e) && stacked(pre, post, pre.frame.locals@),
        Ok((items, rest)) => {
            &&& r is Ok
            &&& kept(pre, post)
            &&& post.output == pre.output
            &&& post.heap.with_list(pre.heap, items)
            &&& post.frame.locals@ == rest.push(
                Value::List(List { index: pre.heap.lists@.len() as usize }),
            )
        },
    }
}

/// What `STR` does: it takes the top `len` values and pushes the string
/// of their renderings, one after the other.
pub open spec fn str_done(len: usize, pre: Machine, post: Machine, r: Result<(), Error>) -> bool {
    match captured(pre.frame.locals@, pre.frame.mark as nat, len as nat) {
        Err(e) => r == Err::<(), Error>(e) && stacked(pre, post, pre.frame.locals@),
        Ok((items, rest)) => {
            &&& r is Ok
            &&& kept(pre, post)
            &&& post.output == pre.output
            &&& post.heap == pre.heap
            &&& post.frame.locals@.len() == rest.len() + 1
            &&& post.frame.locals@.drop_last() == rest
            &&& post.frame.locals@.last() matches Value::Str(s)
            &&& s@ == joined(items, Seq::empty(), pre.heap)
        },
    }
}

/// What `REC` does: it pushes a new, empty record.
pub open spec fn rec_done(pre: Machine, post: Machine, r: Result<(), Error>) -> bool {
    &&& r is Ok
    &&& kept(pre, post)
    &&& post.output == pre.output
    &&& post.heap.records@.len() == pre.heap.records@.len() + 1
    &&& post.heap.records@.drop_last() == pre.heap.records@
    &&& post.heap.records@.last()@.len() == 0
    &&& post.heap.lists == pre.heap.lists
    &&& post.heap.patterns == pre.heap.patterns
    &&& post.frame.locals@ == pre.frame.locals@.push(
        Value::Record(Record { index: pre.heap.records@.len() as usize }),
    )
}

/// What `PAT` does: it specializes the pattern to the texts that its
/// variables stand for, and pushes the compiled pattern.
pub open spec fn pat_done(pat: crate::pattern::Expr, pre: Machine, post: Machine, r: Result<(), Error>) -> bool {
    &&& r matches Err(e) ==> unbound(pre, pat, e) && stacked(pre, post, pre.frame.locals@)
    &&& r is Ok ==> {
        &&& kept(pre, post)
        &&& post.output == pre.output
        &&& post.heap.lists == pre.heap.lists
        &&& post.heap.records == pre.heap.records
        &&& post.heap.patterns@.len() == pre.heap.patterns@.len() + 1
        &&& post.heap.patterns@.drop_last() == pre.heap.patterns@
        &&& ast_maps(binding(pre), pat, post.heap.patterns@.last().ast)
        &&& post.frame.locals@ == pre.frame.locals@.push(
            Value::Pattern(PatternRef { index: pre.heap.patterns@.len() as usize }),
        )
    }
}

/// What calling `name` with `argv` does, in a frame whose locals are
/// `rest`. A function of the host runs at once and its result is pushed.
/// A function of the language gets a new frame: the arguments are its
/// locals, all of them reserved, and the caller's frame is saved. Where the
/// call fails, the frame keeps the locals `rest`.
pub open spec fn called(
    main: Module,
    name: Ident,
    argv: Seq<Value>,
    rest: Seq<Value>,
    pre: Machine,
    post: Machine,
    r: Result<(), Error>,
) -> bool {
    match function_at(main.functions@, name@) {
        None => r == Err::<(), Error>(Error::NoSuchLabel) && stacked(pre, post, rest),
        Some(i) => if !main.functions@[i].1.admits(argv.len()) {
            r == Err::<(), Error>(
                Error::WrongArgc {
                    func: name,
                    expected: main.functions@[i].1,
                    found: argv.len() as usize,
                },
            ) && stacked(pre, post, rest)
        } else {
            match main.functions@[i].2 {
                Func::Native(native) => {
                    &&& native_done(native, argv, pre, post, outcome(r, post.frame.locals@))
                    &&& kept(pre, post)
                    &&& r is Ok ==> post.frame.locals@.len() == rest.len() + 1
                        && post.frame.locals@.drop_last() == rest
                    &&& r is Err ==> post.frame.locals@ == rest
                },
                Func::Interpreted(body) => {
                    &&& r is Ok
                    &&& post.heap == pre.heap
                    &&& post.output == pre.output
                    &&& post.globals == pre.globals
                    &&& post.frame.code == Code::Function(i as usize)
                    &&& post.frame.pc == 0
                    &&& post.frame.mark == argv.len()
                    &&& post.frame.locals@ == argv
                    &&& post.frame.groups@.len() == 0
                    &&& post.saved@.len() == pre.saved@.len() + 1
                    &&& post.saved@.drop_last() == pre.saved@
                    &&& post.saved@.last().code == pre.frame.code
                    &&& post.saved@.last().mark == pre.frame.mark
                    &&& post.saved@.last().groups == pre.frame.groups
                    &&& post.saved@.last().locals@ == rest
                },
            }
        },
    }
}

/// What `CALL` does: it takes the top `argc` values as the arguments and
/// calls the function.
pub open spec fn call_done(
    main: Module,
    name: Ident,
    argc: usize,
    pre: Machine,
    post: Machine,
    r: Result<(), Error>,
) -> bool {
    match captured(pre.frame.locals@, pre.frame.mark as nat, argc as nat) {
        Err(e) => r == Err::<(), Error>(e) && stacked(pre, post, pre.frame.locals@),
        Ok((argv, rest)) => called(main, name, argv, rest, pre, post, r),
    }
}

/// What `RET` does: it pops the return value, goes back to the frame of
/// the caller, and pushes the value there. Without a caller, or without a
/// value to return, it fails and the frame stays.
pub open spec fn ret_done(pre: Machine, post: Machine, r: Result<(), Error>) -> bool {
    if pre.saved@.len() == 0 {
        r == Err::<(), Error>(Error::StackUnderflow) && stacked(pre, post, pre.frame.locals@)
    } else {
        match popped(pre.frame.locals@, pre.frame.mark as nat) {
            Err(e) => r == Err::<(), Error>(e) && stacked(pre, post, pre.frame.locals@),
            Ok((rv, rest)) => {
                &&& r is Ok
                &&& post.heap == pre.heap
                &&& post.output == pre.output
                &&& post.globals == pre.globals
                &&& post.saved@ == pre.saved@.drop_last()
                &&& post.frame.code == pre.saved@.last().code
                &&& post.frame.pc == pre.saved@.last().pc
                &&& post.frame.mark == pre.saved@.last().mark
                &&& post.frame.groups == pre.saved@.last().groups
                &&& post.frame.locals@ == pre.saved@.last().locals@.push(rv)
            },
        }
    }
}

impl Env for Machine {
    open spec fn local(&self, slot: usize) -> Option<Seq<char>> {
        if slot < self.frame.mark && slot < self.frame.locals@.len() {
            Some(value_text(self.frame.locals@[slot as int], self.heap, self.heap.depth()))
        } else {
            None
        }
    }

    open spec fn global(&self, name: Seq<char>) -> Option<Seq<char>> {
        if self.globals.index < self.heap.records@.len() {
            let entries = self.heap.records@[self.globals.index as int]@;
            match position_of(entries, name) {
                Some(i) => Some(value_text(entries[i].1, self.heap, self.heap.depth())),
                None => None,
            }
        } else {
            None
        }
    }

    fn read_local(&self, slot: usize) -> (r: Option<Str>) {
        if slot < self.frame.mark && slot < self.frame.locals.len() {
            Some(self.frame.locals[slot].to_string(&self.heap))
        } else {
            None
        }
    }

    fn read_global(&self, name: &Ident) -> (r: Option<Str>) {
        if self.globals.index >= self.heap.records.len() {
            return None;
        }
        let entries = &self.heap.records[self.globals.index];
        match find_entry(entries, name) {
            Some(i) => Some(entries[i].1.to_string(&self.heap)),
            None => None,
        }
    }
}

impl Machine {
    /// Matches a string against a pattern and records the groups.
    pub fn match_pattern(&mut self, pat: Value, text: Value) -> (r: Result<Value, Error>)
        requires
            old(self).wf(),
        ensures
            final(self).wf(),
            final(self).heap == old(self).heap,
            final(self).saved == old(self).saved,
            final(self).globals == old(self).globals,
            final(self).output == old(self).output,
            final(self).frame.code == old(self).frame.code,
            final(self).frame.pc == old(self).frame.pc,
            final(self).frame.mark == old(self).frame.mark,
            final(self).frame.locals == old(self).frame.locals,
            matched(pat, text, *old(self), *final(self), r),
    {
        let p = match pat {
            Value::Pattern(p) => p,
            other => {
                return Err(Error::TypeMismatch { expected: "Pattern", found: other.kind_name() });
            },
        };
        let text = match text {
            Value::Str(text) => text,
            other => {
                return Err(Error::TypeMismatch { expected: "Str", found: other.kind_name() });
            },
        };
        if p.index >= self.heap.patterns.len() {
            return Err(Error::IndexOutOfBounds);
        }
        let found = Eval::new(&self.heap.patterns[p.index], text.as_str()).search();
        self.frame.groups.clear();
        match found {
            None => Ok(Value::from_bool(false)),
            Some(captures) => {
                let chars = chars_of(text.as_str());
                let mut i: usize = 0;
                while i < captures.len()
                    invariant
                        i <= captures.len(),
                        chars@ == text@,
                        spans_within(captures@, text@.len() as int),
                        self.wf(),
                        self.heap == old(self).heap,
                        self.saved == old(self).saved,
                        self.globals == old(self).globals,
                        self.output == old(self).output,
                        self.frame.code == old(self).frame.code,
                        self.frame.pc == old(self).frame.pc,
                        self.frame.mark == old(self).frame.mark,
                        self.frame.locals == old(self).frame.locals,
                        groups_hold(self.frame.groups@, captures@.take(i as int), text@),
                    decreases captures.len() - i,
                {
                    let (num, start, end) = captures[i];
                    assert(captures@[i as int].1 <= captures@[i as int].2 <= text@.len());
                    let piece = string_of(&chars, start, end);
                    self.frame.groups.push((num, piece));
                    i = i + 1;
                }
                assert(captures@.take(captures.len() as int) =~= captures@);
                Ok(Value::from_bool(true))
            },
        }
    }

    /// Specializes a pattern to the texts that its variables stand for: the
    /// rendering of the local in a slot, and of the global of a name.
    pub fn compile_pattern(&self, pat: &crate::pattern::Expr) -> (r: Result<Compiled, Error>)
        ensures
            r matches Ok(c) ==> ast_maps(binding(*self), *pat, c.ast),
            r matches Err(e) ==> unbound(*self, *pat, e),
            r is Ok <==> forall|v: Var<usize>| #[trigger]
                group_holds(pat.root, v) ==> bound(*self, v) is Ok,
    {
        specialize(pat, self)
    }

    /// Calls the function `name` with the arguments `argv`.
    pub fn fncall(&mut self, main: &Module, name: &Ident, argv: Vec<Value>) -> (r: Result<(), Error>)
        requires
            old(self).wf(),
        ensures
            final(self).wf(),
            called(*main, *name, argv@, old(self).frame.locals@, *old(self), *final(self), r),
            r is Ok && final(self).saved@.len() > old(self).saved@.len() ==> final(self).saved@.last().pc == old(self).frame.pc,
            r is Ok && final(self).saved@.len() <= old(self).saved@.len() ==> final(self).frame.pc
                == old(self).frame.pc,
    {
        let index = match main.find(name) {
            Some(index) => index,
            None => {
                return Err(Error::NoSuchLabel);
            },
        };
        let wanted = main.functions[index].1;
        let admitted = match wanted {
            Argc::Exactly(argc) => argc == argv.len(),
            Argc::AtLeast(argc) => argc <= argv.len(),
        };
        if !admitted {
            return Err(Error::WrongArgc { func: name.clone(), expected: wanted, found: argv.len() });
        }
        match &main.functions[index].2 {
            Func::Native(native) => {
                let value = match self.call_native(*native, argv) {
                    Ok(value) => value,
                    Err(e) => {
                        return Err(e);
                    },
                };
                self.push(value);
                assert(self.frame.locals@.drop_last() =~= old(self).frame.locals@);
                Ok(())
            },
            Func::Interpreted(_) => {
                let mark = argv.len();
                let mut frame = Frame {
                    code: Code::Function(index),
                    pc: 0,
                    mark,
                    locals: argv,
                    groups: Vec::new(),
                };
                core::mem::swap(&mut self.frame, &mut frame);
                self.saved.push(frame);
                assert(self.saved@.drop_last() =~= old(self).saved@);
                Ok(())
            },
        }
    }
}

/// What one instruction does to the machine. An instruction that fails
/// says with which error; the program counter has then moved on, what the
/// instruction popped before it failed is gone, and nothing else has
/// changed.
pub open spec fn executed(main: Module, op: Op, pre: Machine, post: Machine, r: Result<(), Error>) -> bool {
    let locals = pre.frame.locals@;
    let mark = pre.frame.mark as nat;
    let next = pre.frame.pc + 1;
    match op {
        Op::NIL => r is Ok && post.frame.pc == next && stacked(
            pre,
            post,
            locals.push(Value::Nil(())),
        ),
        Op::PUSHI { value } => r is Ok && post.frame.pc == next && stacked(
            pre,
            post,
            locals.push(Value::Int(value)),
        ),
        Op::PUSHS { string } => r is Ok && post.frame.pc == next && stacked(
            pre,
            post,
            locals.push(Value::Str(string)),
        ),
        Op::PUSHN { name } => r is Ok && post.frame.pc == next && stacked(
            pre,
            post,
            locals.push(Value::Ident(name)),
        ),
        Op::GLOBALS => r is Ok && post.frame.pc == next && stacked(
            pre,
            post,
            locals.push(Value::Record(pre.globals)),
        ),
        Op::DUP => match popped(locals, mark) {
            Err(e) => r == Err::<(), Error>(e) && halted(pre, post, locals),
            Ok((v, rest)) => r is Ok && post.frame.pc == next && stacked(pre, post, locals.push(v)),
        },
        Op::DROP => match popped(locals, mark) {
            Err(e) => r == Err::<(), Error>(e) && halted(pre, post, locals),
            Ok((v, rest)) => r is Ok && post.frame.pc == next && stacked(pre, post, rest),
        },
        Op::NOT => match popped(locals, mark) {
            Err(e) => r == Err::<(), Error>(e) && halted(pre, post, locals),
            Ok((v, rest)) => r is Ok && post.frame.pc == next && stacked(
                pre,
                post,
                rest.push(truth(!v.truthy())),
            ),
        },
        Op::LOAD { src } => if src < mark {
            r is Ok && post.frame.pc == next && stacked(pre, post, locals.push(locals[src as int]))
        } else {
            r == Err::<(), Error>(Error::LocalVarOutOfBounds { index: src }) && halted(
                pre,
                post,
                locals,
            )
        },
        Op::STORE { dst } => match popped(locals, mark) {
            Err(e) => r == Err::<(), Error>(e) && halted(pre, post, locals),
            Ok((v, rest)) => if dst < mark {
                r is Ok && post.frame.pc == next && stacked(pre, post, rest.update(dst as int, v))
            } else {
                r == Err::<(), Error>(Error::LocalVarOutOfBounds { index: dst }) && halted(
                    pre,
                    post,
                    rest,
                )
            },
        },
        Op::GROUP { num } => match group_text(pre.frame.groups@, num) {
            Some(text) => r is Ok && post.frame.pc == next && stacked(
                pre,
                post,
                locals.push(Value::Str(text)),
            ),
            None => r == Err::<(), Error>(Error::NoSuchGroup { num }) && halted(pre, post, locals),
        },
        Op::JUMP { dst } => r is Ok && post.frame.pc == dst && stacked(pre, post, locals),
        Op::JNZ { dst } => match popped(locals, mark) {
            Err(e) => r == Err::<(), Error>(e) && halted(pre, post, locals),
            Ok((v, rest)) => r is Ok && stacked(pre, post, rest) && post.frame.pc == (if v.truthy() {
                dst as int
            } else {
                next
            }),
        },
        Op::ASSERT { expr } => match popped(locals, mark) {
            Err(e) => r == Err::<(), Error>(e) && halted(pre, post, locals),
            Ok((v, rest)) => if v.truthy() {
                r is Ok && post.frame.pc == next && stacked(pre, post, rest)
            } else {
                r == Err::<(), Error>(Error::Assert { expr }) && halted(pre, post, rest)
            },
        },
        Op::MARK { len } => if len > locals.len() {
            r == Err::<(), Error>(Error::MarkTooHigh) && halted(pre, post, locals)
        } else {
            &&& r is Ok
            &&& post.frame.pc == next
            &&& post.saved == pre.saved
            &&& post.heap == pre.heap
            &&& post.output == pre.output
            &&& post.globals == pre.globals
            &&& post.frame.code == pre.frame.code
            &&& post.frame.groups == pre.frame.groups
            &&& post.frame.mark == len
            &&& post.frame.locals@ == locals.take(len as int)
        },
        Op::BINOP { op } => binop_done(op, pre, post, r) && post.frame.pc == next,
        Op::INS => ins_done(pre, post, r) && post.frame.pc == next,
        Op::LIST { len } => list_done(len, pre, post, r) && post.frame.pc == next,
        Op::STR { len } => str_done(len, pre, post, r) && post.frame.pc == next,
        Op::REC => rec_done(pre, post, r) && post.frame.pc == next,
        Op::PAT { pat } => pat_done(pat, pre, post, r) && post.frame.pc == next,
        Op::CALL { name, argc } => call_done(main, name, argc, pre, post, r) && if r is Ok
            && post.saved@.len() > pre.saved@.len() {
            post.saved@.last().pc == next
        } else {
            post.frame.pc == next
        },
        Op::RET => ret_done(pre, post, r) && (r is Err ==> post.frame.pc == next),
    }
}

/// The machine with its program counter moved to `pc`.
pub open spec fn moved(m: Machine, pc: usize) -> Machine {
    Machine { frame: Frame { pc, ..m.frame }, ..m }
}

/// What one step does: it runs the instruction at the program counter of
/// the current frame. Where the counter is past the body it fails and
/// leaves the machine as it was.
pub open spec fn stepped(main: Module, pre: Machine, post: Machine, r: Result<(), Error>) -> bool {
    let code = code_of(main, pre.frame.code);
    if pre.frame.pc < code.len() {
        executed(main, code[pre.frame.pc as int], pre, post, r)
    } else {
        r == Err::<(), Error>(Error::PcOutOfBounds { pc: pre.frame.pc }) && post == pre
    }
}

/// The body that a frame runs.
fn body(main: &Module, code: Code) -> (r: Option<&InterpretedFn>)
    ensures
        r matches Some(f) ==> f@ == code_of(*main, code),
        r is None ==> code_of(*main, code).len() == 0,
{
    match code {
        Code::Begin => Some(&main.begin),
        Code::Function(i) => {
            if i < main.functions.len() {
                match &main.functions[i].2 {
                    Func::Interpreted(f) => Some(f),
                    Func::Native(_) => None,
                }
            } else {
                None
            }
        },
    }
}

/// The text of the first capture of group `num`.
fn find_group(groups: &Vec<(GroupNumber, Str)>, num: GroupNumber) -> (r: Option<Str>)
    ensures
        r == group_text(groups@, num),
{
    let mut i: usize = 0;
    while i < groups.len()
        invariant
            i <= groups.len(),
            group_text(groups@.take(i as int), num) is None,
        decreases groups.len() - i,
    {
        proof {
            assert(groups@.take(i + 1).drop_last() =~= groups@.take(i as int));
        }
        if groups[i].0 == num {
            proof {
                group_text_extends(groups@, num, i + 1);
                assert(groups@.take(i + 1).last() == groups@[i as int]);
            }
            return Some(groups[i].1.clone());
        }
        i = i + 1;
    }
    assert(groups@.take(groups.len() as int) =~= groups@);
    None
}

proof fn group_text_extends(groups: Seq<(GroupNumber, Str)>, num: GroupNumber, n: int)
    requires
        0 <= n <= groups.len(),
        group_text(groups.take(n), num) is Some,
    ensures
        group_text(groups, num) == group_text(groups.take(n), num),
    decreases groups.len() - n,
{
    if n < groups.len() {
        assert(groups.take(n + 1).drop_last() =~= groups.take(n));
        group_text_extends(groups, num, n + 1);
    } else {
        assert(groups.take(n) =~= groups);
    }
}

impl Machine {
    /// A machine that is about to run the `BEGIN` body: an empty frame, an
    /// empty heap but for the record of the globals, and no output.
    pub fn new() -> (m: Machine)
        ensures
            m.wf(),
            m.frame.code == Code::Begin,
            m.frame.pc == 0,
            m.frame.mark == 0,
            m.frame.locals@.len() == 0,
            m.frame.groups@.len() == 0,
            m.saved@.len() == 0,
            m.output@.len() == 0,
            m.globals == (Record { index: 0 }),
            m.heap.lists@.len() == 0,
            m.heap.patterns@.len() == 0,
            m.heap.records@.len() == 1,
            m.heap.records@[0]@.len() == 0,
    {
        let mut heap = Heap::new();
        let globals = heap.alloc_record();
        Machine {
            frame: Frame {
                code: Code::Begin,
                pc: 0,
                mark: 0,
                locals: Vec::new(),
                groups: Vec::new(),
            },
            saved: Vec::new(),
            heap,
            globals,
            output: Vec::new(),
        }
    }

    /// Moves on to the next instruction.
    fn advance(&mut self)
        requires
            old(self).frame.pc < usize::MAX,
        ensures
            final(self).frame.pc == old(self).frame.pc + 1,
            final(self).frame.code == old(self).frame.code,
            final(self).frame.mark == old(self).frame.mark,
            final(self).frame.locals == old(self).frame.locals,
            final(self).frame.groups == old(self).frame.groups,
            final(self).saved == old(self).saved,
            final(self).heap == old(self).heap,
            final(self).globals == old(self).globals,
            final(self).output == old(self).output,
    {
        self.frame.pc = self.frame.pc + 1;
    }

    /// Executes a binary operator on the two values on top of the stack.
    fn binop(&mut self, op: Binop) -> (r: Result<(), Error>)
        requires
            old(self).wf(),
            old(self).frame.pc < usize::MAX,
        ensures
            final(self).wf(),
            binop_done(op, *old(self), *final(self), r),
            r is Ok ==> final(self).frame.pc == old(self).frame.pc + 1,
    {
        let rhs = match self.pop() {
            Ok(rhs) => rhs,
            Err(e) => {
                return Err(e);
            },
        };
        let lhs = match self.pop() {
            Ok(lhs) => lhs,
            Err(e) => {
                return Err(e);
            },
        };
        let ghost rest = self.frame.locals@;
        let result = match op {
            Binop::ADD => lhs.add(rhs, &mut self.heap),
            Binop::SUB => lhs.sub(rhs),
            Binop::DIV => lhs.div(rhs),
            Binop::MUL => lhs.mul(rhs),
            Binop::IDX => lhs.index(rhs, &self.heap),
            Binop::EQ => Ok(Value::from_bool(lhs.equals(&rhs))),
            Binop::NE => Ok(Value::from_bool(!lhs.equals(&rhs))),
            Binop::MATCH => self.match_pattern(rhs, lhs),
        };
        match result {
            Ok(value) => {
                self.push(value);
                self.advance();
                assert(self.frame.locals@.drop_last() =~= rest);
                Ok(())
            },
            Err(e) => Err(e),
        }
    }

    /// Executes an insertion: pops the container, the index and the value.
    fn ins(&mut self) -> (r: Result<(), Error>)
        requires
            old(self).wf(),
            old(self).frame.pc < usize::MAX,
        ensures
            final(self).wf(),
            ins_done(*old(self), *final(self), r),
            r is Ok ==> final(self).frame.pc == old(self).frame.pc + 1,
    {
        let lhs = match self.pop() {
            Ok(lhs) => lhs,
            Err(e) => {
                return Err(e);
            },
        };
        let idx = match self.pop() {
            Ok(idx) => idx,
            Err(e) => {
                return Err(e);
            },
        };
        let rhs = match self.pop() {
            Ok(rhs) => rhs,
            Err(e) => {
                return Err(e);
            },
        };
        match lhs.insert(idx, rhs, &mut self.heap) {
            Ok(()) => {
                self.advance();
                Ok(())
            },
            Err(e) => Err(e),
        }
    }

    /// Executes the construction of a list from the values on top of the stack.
    fn list(&mut self, len: usize) -> (r: Result<(), Error>)
        requires
            old(self).wf(),
            old(self).frame.pc < usize::MAX,
        ensures
            final(self).wf(),
            list_done(len, *old(self), *final(self), r),
            r is Ok ==> final(self).frame.pc == old(self).frame.pc + 1,
    {
        let items = match self.capture(len) {
            Ok(items) => items,
            Err(e) => {
                return Err(e);
            },
        };
        let list = self.heap.alloc_list(items);
        self.push(Value::List(list));
        self.advance();
        Ok(())
    }

    /// Executes the construction of a string from the values on top of the stack.
    fn str(&mut self, len: usize) -> (r: Result<(), Error>)
        requires
            old(self).wf(),
            old(self).frame.pc < usize::MAX,
        ensures
            final(self).wf(),
            str_done(len, *old(self), *final(self), r),
            r is Ok ==> final(self).frame.pc == old(self).frame.pc + 1,
    {
        let items = match self.capture(len) {
            Ok(items) => items,
            Err(e) => {
                return Err(e);
            },
        };
        let ghost rest = self.frame.locals@;
        let mut buf = String::new();
        self.join(&items, "", &mut buf);
        proof {
            reveal_strlit("");
            assert(""@ =~= Seq::<char>::empty());
        }
        self.push(Value::Str(buf));
        self.advance();
        assert(self.frame.locals@.drop_last() =~= rest);
        Ok(())
    }

    /// Executes the construction of an empty record.
    fn rec(&mut self) -> (r: Result<(), Error>)
        requires
            old(self).wf(),
            old(self).frame.pc < usize::MAX,
        ensures
            final(self).wf(),
            rec_done(*old(self), *final(self), r),
            final(self).frame.pc == old(self).frame.pc + 1,
    {
        let rec = self.heap.alloc_record();
        assert(self.heap.records@.drop_last() =~= old(self).heap.records@);
        self.push(Value::Record(rec));
        self.advance();
        Ok(())
    }

    /// Executes the specialisation of a pattern in the current environment.
    fn pat(&mut self, pat: &crate::pattern::Expr) -> (r: Result<(), Error>)
        requires
            old(self).wf(),
            old(self).frame.pc < usize::MAX,
        ensures
            final(self).wf(),
            pat_done(*pat, *old(self), *final(self), r),
            r is Ok ==> final(self).frame.pc == old(self).frame.pc + 1,
    {
        let compiled = match self.compile_pattern(pat) {
            Ok(compiled) => compiled,
            Err(e) => {
                return Err(e);
            },
        };
        let handle = self.heap.alloc_pattern(compiled);
        assert(self.heap.patterns@.drop_last() =~= old(self).heap.patterns@);
        self.push(Value::Pattern(handle));
        self.advance();
        Ok(())
    }

    /// Executes a call: a host function at once, a bytecode function by entering its body.
    fn call(&mut self, main: &Module, name: &Ident, argc: usize) -> (r: Result<(), Error>)
        requires
            old(self).wf(),
            old(self).frame.pc < usize::MAX,
        ensures
            final(self).wf(),
            call_done(*main, *name, argc, *old(self), *final(self), r),
            r is Ok ==> if final(self).saved@.len() > old(self).saved@.len() {
                final(self).saved@.last().pc == old(self).frame.pc + 1
            } else {
                final(self).frame.pc == old(self).frame.pc + 1
            },
    {
        let argv = match self.capture(argc) {
            Ok(argv) => argv,
            Err(e) => {
                return Err(e);
            },
        };
        self.advance();
        self.fncall(main, name, argv)
    }

    /// Executes a return: leaves the current body and hands the value on top to the caller.
    fn ret(&mut self) -> (r: Result<(), Error>)
        requires
            old(self).wf(),
        ensures
            final(self).wf(),
            ret_done(*old(self), *final(self), r),
    {
        if self.saved.len() == 0 {
            return Err(Error::StackUnderflow);
        }
        let rv = match self.pop() {
            Ok(rv) => rv,
            Err(e) => {
                return Err(e);
            },
        };
        assert(old(self).saved@.last().wf());
        let mut frame = self.saved.pop().unwrap();
        frame.locals.push(rv);
        self.frame = frame;
        Ok(())
    }

    /// Runs one instruction. An instruction that fails leaves the program
    /// counter behind it.
    pub fn step(&mut self, main: &Module) -> (r: Result<(), Error>)
        requires
            old(self).wf(),
        ensures
            final(self).wf(),
            stepped(*main, *old(self), *final(self), r),
    {
        let pc = self.frame.pc;
        let code = match body(main, self.frame.code) {
            Some(code) => code,
            None => {
                return Err(Error::PcOutOfBounds { pc });
            },
        };
        let op = match code.fetch(pc) {
            Ok(op) => op,
            Err(e) => {
                return Err(e);
            },
        };
        match self.execute(main, op) {
            Ok(()) => Ok(()),
            Err(e) => {
                self.frame.pc = pc + 1;
                Err(e)
            },
        }
    }

    /// Runs the instruction `op`. Where it fails, the program counter is
    /// left for the caller to move.
    fn execute(&mut self, main: &Module, op: &Op) -> (r: Result<(), Error>)
        requires
            old(self).wf(),
            old(self).frame.pc < usize::MAX,
        ensures
            final(self).wf(),
            r is Ok ==> executed(*main, *op, *old(self), *final(self), r),
            r is Err ==> executed(
                *main,
                *op,
                *old(self),
                moved(*final(self), (old(self).frame.pc + 1) as usize),
                r,
            ),
    {
        match op {
            Op::NIL => {
                self.push(Value::Nil(()));
                self.advance();
                Ok(())
            },
            Op::PUSHI { value } => {
                self.push(Value::Int(*value));
                self.advance();
                Ok(())
            },
            Op::PUSHS { string } => {
                self.push(Value::Str(string.clone()));
                self.advance();
                Ok(())
            },
            Op::PUSHN { name } => {
                self.push(Value::Ident(name.clone()));
                self.advance();
                Ok(())
            },
            Op::GLOBALS => {
                let globals = self.globals;
                self.push(Value::Record(globals));
                self.advance();
                Ok(())
            },
            Op::DUP => {
                let v = match self.pop() {
                    Ok(v) => v,
                    Err(e) => {
                        return Err(e);
                    },
                };
                self.push(v.clone());
                self.push(v);
                self.advance();
                assert(self.frame.locals@ =~= old(self).frame.locals@.push(v));
                Ok(())
            },
            Op::DROP => {
                match self.pop() {
                    Ok(_) => {},
                    Err(e) => {
                        return Err(e);
                    },
                }
                self.advance();
                Ok(())
            },
            Op::NOT => {
                let v = match self.pop() {
                    Ok(v) => v,
                    Err(e) => {
                        return Err(e);
                    },
                };
                self.push(Value::from_bool(!v.is_truthy()));
                self.advance();
                Ok(())
            },
            Op::LOAD { src } => {
                let v = match self.read(*src) {
                    Ok(v) => v,
                    Err(e) => {
                        return Err(e);
                    },
                };
                self.push(v);
                self.advance();
                Ok(())
            },
            Op::STORE { dst } => {
                let v = match self.pop() {
                    Ok(v) => v,
                    Err(e) => {
                        return Err(e);
                    },
                };
                match self.write(v, *dst) {
                    Ok(()) => {},
                    Err(e) => {
                        return Err(e);
                    },
                }
                self.advance();
                Ok(())
            },
            Op::GROUP { num } => {
                let text = match find_group(&self.frame.groups, *num) {
                    Some(text) => text,
                    None => {
                        return Err(Error::NoSuchGroup { num: *num });
                    },
                };
                self.push(Value::Str(text));
                self.advance();
                Ok(())
            },
            Op::JUMP { dst } => {
                self.frame.pc = *dst;
                Ok(())
            },
            Op::JNZ { dst } => {
                let v = match self.pop() {
                    Ok(v) => v,
                    Err(e) => {
                        return Err(e);
                    },
                };
                if v.is_truthy() {
                    self.frame.pc = *dst;
                } else {
                    self.advance();
                }
                Ok(())
            },
            Op::ASSERT { expr } => {
                let v = match self.pop() {
                    Ok(v) => v,
                    Err(e) => {
                        return Err(e);
                    },
                };
                if !v.is_truthy() {
                    return Err(Error::Assert { expr: expr.clone() });
                }
                self.advance();
                Ok(())
            },
            Op::MARK { len } => {
                if *len > self.frame.locals.len() {
                    return Err(Error::MarkTooHigh);
                }
                self.frame.mark = *len;
                self.frame.locals.truncate(*len);
                self.advance();
                Ok(())
            },
            Op::BINOP { op } => self.binop(*op),
            Op::INS => self.ins(),
            Op::LIST { len } => self.list(*len),
            Op::STR { len } => self.str(*len),
            Op::REC => self.rec(),
            Op::PAT { pat } => self.pat(pat),
            Op::CALL { name, argc } => self.call(main, name, *argc),
            Op::RET => self.ret(),
        }
    }
}

/// Whether `n` steps lead from `pre` to `post`, none of which fails, and
/// each of which starts in a machine that is still `going`.
pub open spec fn runs(
    main: Module,
    going: spec_fn(Machine) -> bool,
    pre: Machine,
    post: Machine,
    n: nat,
) -> bool
    decreases n,
{
    if n == 0 {
        post == pre
    } else {
        exists|mid: Machine|
            runs(main, going, pre, mid, (n - 1) as nat) && going(mid) && #[trigger] stepped(
                main,
                mid,
                post,
                Ok(()),
            )
    }
}

/// A run that is still going can take one more step.
pub proof fn runs_on(
    main: Module,
    going: spec_fn(Machine) -> bool,
    pre: Machine,
    mid: Machine,
    post: Machine,
    n: nat,
)
    requires
        runs(main, going, pre, mid, n),
        going(mid),
        stepped(main, mid, post, Ok(())),
    ensures
        runs(main, going, pre, post, n + 1),
{
    assert((n + 1 - 1) as nat == n);
}

/// A machine is in a call as long as a caller's frame is saved.
pub open spec fn in_call() -> spec_fn(Machine) -> bool {
    |m: Machine| m.saved@.len() > 0
}

/// A machine is in a body as long as its program counter is in the body of
/// its frame.
pub open spec fn in_body(main: Module) -> spec_fn(Machine) -> bool {
    |m: Machine| m.frame.pc < code_of(main, m.frame.code).len()
}

/// Whether `fresh` is a machine that is about to run the `BEGIN` body: an
/// empty frame at the start of that body, no saved frame, no output, and a
/// heap that holds the empty record of the globals and nothing else.
pub open spec fn begins(fresh: Machine) -> bool {
    &&& fresh.frame.code == Code::Begin
    &&& fresh.frame.pc == 0
    &&& fresh.frame.mark == 0
    &&& fresh.frame.locals@.len() == 0
    &&& fresh.frame.groups@.len() == 0
    &&& fresh.saved@.len() == 0
    &&& fresh.output@.len() == 0
    &&& fresh.globals == (Record { index: 0 })
    &&& fresh.heap.lists@.len() == 0
    &&& fresh.heap.patterns@.len() == 0
    &&& fresh.heap.records@.len() == 1
    &&& fresh.heap.records@[0]@.len() == 0
}

/// Whether the `BEGIN` body, run from the machine `fresh`, ended after `n`
/// steps in the machine `done`.
pub open spec fn began(main: Module, fresh: Machine, done: Machine, n: nat) -> bool {
    begins(fresh) && runs(main, in_body(main), fresh, done, n) && !in_body(main)(done)
}

/// Whether a call that `entered` a function returned after `n` steps in the
/// machine `done`.
pub open spec fn returned(main: Module, entered: Machine, done: Machine, n: nat) -> bool {
    runs(main, in_call(), entered, done, n) && done.saved@.len() == 0
}

/// Whether a run from `pre` stopped after `n` steps in the machine `mid`,
/// which was still going: its next step, to `post`, failed with the error
/// `e`, or the run had taken `limit` steps and `e` says so.
pub open spec fn stopped(
    main: Module,
    going: spec_fn(Machine) -> bool,
    pre: Machine,
    mid: Machine,
    post: Machine,
    n: nat,
    limit: nat,
    e: Error,
) -> bool {
    &&& runs(main, going, pre, mid, n)
    &&& going(mid)
    &&& n <= limit
    &&& stepped(main, mid, post, Err(e)) || (e is OutOfSteps && n == limit && post == mid)
}

/// Why a call of `name` with `args` in the machine `pre` failed with the
/// error `e`: the call itself failed, or the run of the function stopped,
/// or the machine that the call returned to had no value to pop.
pub open spec fn exec_failed(
    main: Module,
    name: Ident,
    args: Seq<Value>,
    pre: Machine,
    post: Machine,
    limit: nat,
    e: Error,
) -> bool {
    ||| called(main, name, args, pre.frame.locals@, pre, post, Err(e))
    ||| exists|entered: Machine, mid: Machine, n: nat|
        #[trigger] called(main, name, args, pre.frame.locals@, pre, entered, Ok(()))
            && #[trigger] stopped(main, in_call(), entered, mid, post, n, limit, e)
    ||| exists|entered: Machine, n: nat|
        #[trigger] called(main, name, args, pre.frame.locals@, pre, entered, Ok(()))
            && #[trigger] returned(main, entered, post, n) && n <= limit && popped(
            post.frame.locals@,
            post.frame.mark as nat,
        ) == Err::<(Value, Seq<Value>), Error>(e)
}

/// What running a machine that has `entered` a call gives: the value that
/// the call returned, popped from the machine in which it returned; or the
/// error with which the run stopped, or with which the machine that the
/// call returned to had no value to pop.
pub open spec fn finished(
    main: Module,
    entered: Machine,
    post: Machine,
    limit: nat,
    r: Result<Value, Error>,
) -> bool {
    match r {
        Ok(v) => exists|done: Machine, n: nat|
            {
                &&& #[trigger] returned(main, entered, done, n)
                &&& n <= limit
                &&& popped(done.frame.locals@, done.frame.mark as nat) == Ok::<
                    (Value, Seq<Value>),
                    Error,
                >((v, post.frame.locals@))
                &&& done.same_but_locals(post)
            },
        Err(e) => {
            ||| exists|mid: Machine, n: nat| #[trigger]
                stopped(main, in_call(), entered, mid, post, n, limit, e)
            ||| exists|n: nat| #[trigger]
                returned(main, entered, post, n) && n <= limit && popped(
                    post.frame.locals@,
                    post.frame.mark as nat,
                ) == Err::<(Value, Seq<Value>), Error>(e)
        },
    }
}

/// A running program: the module, the machine, and a pool for the names
/// that the host hands in.
pub struct Interpreter {
    pub main: Module,
    pub strings: Strings,
    pub machine: Machine,
    /// How many steps `exec` may take before it gives up.
    pub limit: u64,
}

impl Module {
    /// Starts the program: runs the `BEGIN` body to its end. The run fails
    /// with the error of the first step that fails, and with `OutOfSteps`
    /// when the body has not ended after `u64::MAX` steps.
    pub fn start(self) -> (r: Result<Interpreter, Error>)
        ensures
            r matches Ok(it) ==> {
                &&& it.main == self
                &&& it.limit == u64::MAX
                &&& it.machine.wf()
                &&& exists|fresh: Machine, n: nat| #[trigger] began(self, fresh, it.machine, n)
            },
            r matches Err(e) ==> exists|fresh: Machine, mid: Machine, post: Machine, n: nat|
                begins(fresh) && #[trigger] stopped(
                    self,
                    in_body(self),
                    fresh,
                    mid,
                    post,
                    n,
                    u64::MAX as nat,
                    e,
                ),
    {
        let (it, outcome) = self.launch();
        match outcome {
            Ok(()) => Ok(it),
            Err(e) => Err(e),
        }
    }

    /// Runs the `BEGIN` body as `start` does, and hands out the interpreter
    /// whether the run has failed or not: after a failure its machine is
    /// where the failing step left it, with the lines that the program had
    /// printed before.
    #[verifier::loop_isolation(false)]
    pub fn launch(self) -> (r: (Interpreter, Result<(), Error>))
        ensures
            r.0.main == self,
            r.0.limit == u64::MAX,
            r.0.machine.wf(),
            r.1 is Ok ==> exists|fresh: Machine, n: nat| #[trigger] began(self, fresh, r.0.machine, n),
            r.1 matches Err(e) ==> exists|fresh: Machine, mid: Machine, n: nat|
                begins(fresh) && #[trigger] stopped(
                    self,
                    in_body(self),
                    fresh,
                    mid,
                    r.0.machine,
                    n,
                    u64::MAX as nat,
                    e,
                ),
    {
        let mut machine = Machine::new();
        let ghost fresh = machine;
        let ghost mut n: nat = 0;
        let mut fuel: u64 = u64::MAX;
        loop
            invariant
                machine.wf(),
                runs(self, in_body(self), fresh, machine, n),
                n + fuel == u64::MAX,
            decreases fuel,
        {
            let len = match body(&self, machine.frame.code) {
                Some(code) => code.len(),
                None => 0,
            };
            if machine.frame.pc >= len {
                break ;
            }
            if fuel == 0 {
                proof {
                    assert(stopped(
                        self,
                        in_body(self),
                        fresh,
                        machine,
                        machine,
                        n,
                        u64::MAX as nat,
                        Error::OutOfSteps,
                    ));
                }
                return (
                    Interpreter { main: self, strings: Strings::new(), machine, limit: u64::MAX },
                    Err(Error::OutOfSteps),
                );
            }
            fuel = fuel - 1;
            let ghost mid = machine;
            match machine.step(&self) {
                Ok(()) => {},
                Err(e) => {
                    proof {
                        assert(stopped(
                            self,
                            in_body(self),
                            fresh,
                            mid,
                            machine,
                            n,
                            u64::MAX as nat,
                            e,
                        ));
                    }
                    return (
                        Interpreter { main: self, strings: Strings::new(), machine, limit: u64::MAX },
                        Err(e),
                    );
                },
            }
            proof {
                runs_on(self, in_body(self), fresh, mid, machine, n);
                n = n + 1;
            }
        }
        proof {
            assert(began(self, fresh, machine, n));
        }
        (Interpreter { main: self, strings: Strings::new(), machine, limit: u64::MAX }, Ok(()))
    }
}

impl Interpreter {
    /// Calls the function `func` with `args` and runs the machine until the
    /// call has returned, then pops the value that it returned. A name that
    /// is no identifier is refused; a run fails with the error of the first
    /// step that fails, and with `OutOfSteps` when the call has not returned
    /// after `limit` steps. A call of a function that the host keeps stops
    /// the run with `HostCall`; `resume` takes it up again.
    pub fn exec(&mut self, func: &str, args: &[Value]) -> (r: Result<Value, Error>)
        requires
            old(self).machine.wf(),
        ensures
            final(self).machine.wf(),
            final(self).main == old(self).main,
            final(self).limit == old(self).limit,
            !valid_ident(func@) ==> (r matches Err(Error::InvalidIdent { input }) && input@
                == func@ && final(self).machine == old(self).machine),
            valid_ident(func@) ==> (r matches Err(e) ==> exists|name: Ident|
                name@ == func@ && #[trigger] exec_failed(
                    old(self).main,
                    name,
                    args@,
                    old(self).machine,
                    final(self).machine,
                    old(self).limit as nat,
                    e,
                )),
            r matches Ok(v) ==> exists|name: Ident, entered: Machine, done: Machine, n: nat|
                {
                    &&& name@ == func@
                    &&& #[trigger] called(
                        old(self).main,
                        name,
                        args@,
                        old(self).machine.frame.locals@,
                        old(self).machine,
                        entered,
                        Ok(()),
                    )
                    &&& #[trigger] returned(old(self).main, entered, done, n)
                    &&& n <= old(self).limit
                    &&& popped(done.frame.locals@, done.frame.mark as nat) == Ok::<
                        (Value, Seq<Value>),
                        Error,
                    >((v, final(self).machine.frame.locals@))
                    &&& done.same_but_locals(final(self).machine)
                },
    {
        let name: Ident = match self.strings.intern(func) {
            Ok(name) => name,
            Err(e) => {
                return Err(e);
            },
        };
        let mut argv: Vec<Value> = Vec::new();
        let mut i: usize = 0;
        while i < args.len()
            invariant
                i <= args.len(),
                argv@ == args@.take(i as int),
            decreases args.len() - i,
        {
            argv.push(args[i].clone());
            i = i + 1;
        }
        assert(args@.take(args.len() as int) =~= args@);
        match self.machine.fncall(&self.main, &name, argv) {
            Ok(()) => {},
            Err(e) => {
                proof {
                    assert(exec_failed(
                        old(self).main,
                        name,
                        args@,
                        old(self).machine,
                        self.machine,
                        old(self).limit as nat,
                        e,
                    ));
                }
                return Err(e);
            },
        }
        let ghost entered = self.machine;
        let r = self.finish();
        proof {
            assert(called(
                old(self).main,
                name,
                args@,
                old(self).machine.frame.locals@,
                old(self).machine,
                entered,
                Ok(()),
            ));
            if r is Ok {
                let v = r->Ok_0;
                let (done, n) = choose|done: Machine, n: nat|
                    {
                        &&& #[trigger] returned(self.main, entered, done, n)
                        &&& n <= self.limit
                        &&& popped(done.frame.locals@, done.frame.mark as nat) == Ok::<
                            (Value, Seq<Value>),
                            Error,
                        >((v, self.machine.frame.locals@))
                        &&& done.same_but_locals(self.machine)
                    };
                assert(returned(old(self).main, entered, done, n));
            } else {
                let e = r->Err_0;
                if exists|mid: Machine, n: nat| #[trigger]
                    stopped(self.main, in_call(), entered, mid, self.machine, n, self.limit as nat, e) {
                    let (mid, n) = choose|mid: Machine, n: nat| #[trigger]
                        stopped(
                            self.main,
                            in_call(),
                            entered,
                            mid,
                            self.machine,
                            n,
                            self.limit as nat,
                            e,
                        );
                    assert(stopped(
                        old(self).main,
                        in_call(),
                        entered,
                        mid,
                        self.machine,
                        n,
                        old(self).limit as nat,
                        e,
                    ));
                } else {
                    let n = choose|n: nat| #[trigger]
                        returned(self.main, entered, self.machine, n) && n <= self.limit && popped(
                            self.machine.frame.locals@,
                            self.machine.frame.mark as nat,
                        ) == Err::<(Value, Seq<Value>), Error>(e);
                    assert(returned(old(self).main, entered, self.machine, n));
                }
                assert(exec_failed(
                    old(self).main,
                    name,
                    args@,
                    old(self).machine,
                    self.machine,
                    old(self).limit as nat,
                    e,
                ));
            }
        }
        r
    }

    /// Takes up a run that a call of a function of the host has stopped:
    /// pushes `value`, which the host has computed as the result of that
    /// function, runs the machine until the call that `exec` made has
    /// returned, and pops the value that it returned. The run fails as one
    /// of `exec` does.
    pub fn resume(&mut self, value: Value) -> (r: Result<Value, Error>)
        requires
            old(self).machine.wf(),
        ensures
            final(self).machine.wf(),
            final(self).main == old(self).main,
            final(self).limit == old(self).limit,
            exists|entered: Machine| #[trigger]
                old(self).machine.same_but_locals(entered) && entered.frame.locals@ == old(
                    self,
                ).machine.frame.locals@.push(value) && finished(
                    old(self).main,
                    entered,
                    final(self).machine,
                    old(self).limit as nat,
                    r,
                ),
    {
        self.machine.push(value);
        let ghost entered = self.machine;
        let r = self.finish();
        proof {
            assert(old(self).machine.same_but_locals(entered));
        }
        r
    }

    /// Runs the machine until the call that it is in has returned, then
    /// pops the value that the call returned.
    #[verifier::loop_isolation(false)]
    fn finish(&mut self) -> (r: Result<Value, Error>)
        requires
            old(self).machine.wf(),
        ensures
            final(self).machine.wf(),
            final(self).main == old(self).main,
            final(self).limit == old(self).limit,
            final(self).strings == old(self).strings,
            finished(
                old(self).main,
                old(self).machine,
                final(self).machine,
                old(self).limit as nat,
                r,
            ),
    {
        let ghost entered = self.machine;
        let ghost mut n: nat = 0;
        let mut fuel: u64 = self.limit;
        while self.machine.saved.len() > 0
            invariant
                self.machine.wf(),
                self.main == old(self).main,
                self.limit == old(self).limit,
                self.strings == old(self).strings,
                runs(self.main, in_call(), entered, self.machine, n),
                n + fuel == self.limit,
            decreases fuel,
        {
            if fuel == 0 {
                proof {
                    assert(stopped(
                        self.main,
                        in_call(),
                        entered,
                        self.machine,
                        self.machine,
                        n,
                        old(self).limit as nat,
                        Error::OutOfSteps,
                    ));
                }
                return Err(Error::OutOfSteps);
            }
            fuel = fuel - 1;
            let ghost mid = self.machine;
            match self.machine.step(&self.main) {
                Ok(()) => {},
                Err(e) => {
                    proof {
                        assert(stopped(
                            self.main,
                            in_call(),
                            entered,
                            mid,
                            self.machine,
                            n,
                            old(self).limit as nat,
                            e,
                        ));
                    }
                    return Err(e);
                },
            }
            proof {
                runs_on(self.main, in_call(), entered, mid, self.machine, n);
                n = n + 1;
            }
        }
        let ghost done = self.machine;
        match self.machine.pop() {
            Ok(v) => {
                proof {
                    assert(returned(old(self).main, entered, done, n));
                }
                Ok(v)
            },
            Err(e) => {
                proof {
                    assert(self.machine == done);
                    assert(returned(old(self).main, entered, self.machine, n));
                }
                Err(e)
            },
        }
    }

    /// Sets the global `name` to `value`: the first entry of the globals
    /// with that name gets the value, or the globals get a new last entry,
    /// and every other entry stays. A name that is no identifier is refused
    /// and changes nothing.
    pub fn set_global(&mut self, name: &str, value: Value) -> (r: Result<(), Error>)
        requires
            old(self).machine.wf(),
        ensures
            final(self).machine.wf(),
            final(self).main == old(self).main,
            final(self).limit == old(self).limit,
            final(self).machine.frame == old(self).machine.frame,
            final(self).machine.saved == old(self).machine.saved,
            final(self).machine.globals == old(self).machine.globals,
            final(self).machine.output == old(self).machine.output,
            !valid_ident(name@) ==> (r matches Err(Error::InvalidIdent { input }) && input@
                == name@ && final(self).machine == old(self).machine),
            valid_ident(name@) ==> r is Ok,
            valid_ident(name@) ==> exists|key: Ident|
                key@ == name@ && #[trigger] inserted(
                    Value::Record(old(self).machine.globals),
                    Value::Ident(key),
                    value,
                    old(self).machine.heap,
                    final(self).machine.heap,
                    r,
                ),
    {
        let key: Ident = match self.strings.intern(name) {
            Ok(key) => key,
            Err(e) => {
                return Err(e);
            },
        };
        let globals = Value::Record(self.machine.globals);
        let r = globals.insert(Value::Ident(key), value, &mut self.machine.heap);
        proof {
            assert(inserted(
                Value::Record(old(self).machine.globals),
                Value::Ident(key),
                value,
                old(self).machine.heap,
                self.machine.heap,
                r,
            ));
        }
        r
    }

    /// Runs one instruction of the program.
    pub fn step(&mut self) -> (r: Result<(), Error>)
        requires
            old(self).machine.wf(),
        ensures
            final(self).machine.wf(),
            final(self).main == old(self).main,
            final(self).limit == old(self).limit,
            stepped(old(self).main, old(self).machine, final(self).machine, r),
    {
        self.machine.step(&self.main)
    }

    /// Pops the top of the operand stack and takes it for a `V`.
    pub fn pop<V: Extract>(&mut self) -> (r: Result<V, Error>)
        requires
            old(self).machine.wf(),
        ensures
            final(self).machine.wf(),
            final(self).main == old(self).main,
            old(self).machine.same_but_locals(final(self).machine),
            match popped(old(self).machine.frame.locals@, old(self).machine.frame.mark as nat) {
                Ok((v, rest)) => final(self).machine.frame.locals@ == rest && match V::extracted(v) {
                    Some(x) => r == Ok::<V, Error>(x),
                    None => r matches Err(e) && is_mismatch(e, V::wanted(), v.kind()),
                },
                Err(e) => r == Err::<V, Error>(e) && final(self).machine.frame.locals@ == old(self).machine.frame.locals@,
            },
    {
        match self.machine.pop() {
            Ok(v) => V::extract(v),
            Err(e) => Err(e),
        }
    }

    /// Pushes a value on the operand stack.
    pub fn push(&mut self, item: Value)
        requires
            old(self).machine.wf(),
        ensures
            final(self).machine.wf(),
            final(self).main == old(self).main,
            old(self).machine.same_but_locals(final(self).machine),
            final(self).machine.frame.locals@ == old(self).machine.frame.locals@.push(item),
    {
        self.machine.push(item);
    }
}

/// The machine keeps its reserved slots: a step that succeeds from a machine
/// whose frames all have their mark no higher than their locals, and whose
/// heap holds the record of the globals, leads to such a machine.
pub proof fn mark_never_exceeds_locals(main: Module, pre: Machine, post: Machine)
    requires
        pre.wf(),
        stepped(main, pre, post, Ok(())),
    ensures
        post.wf(),
{
    let code = code_of(main, pre.frame.code);
    let op = code[pre.frame.pc as int];
    match op {
        Op::RET => {
            assert(pre.saved@.last().wf());
            assert forall|i: int| 0 <= i < post.saved@.len() implies (#[trigger] post.saved@[i]).wf() by {
                assert(pre.saved@[i].wf());
            }
        },
        Op::CALL { name, argc } => {
            assert forall|i: int| 0 <= i < post.saved@.len() implies (#[trigger] post.saved@[i]).wf() by {
                if post.saved@.len() > pre.saved@.len() {
                    if i < pre.saved@.len() {
                        assert(post.saved@.drop_last()[i] == post.saved@[i]);
                        assert(pre.saved@[i].wf());
                    }
                } else {
                    assert(pre.saved@[i].wf());
                }
            }
        },
        _ => {},
    }
}

} // verus!
