//! The bytecode: opcodes, function bodies and the assembled module.

use vstd::prelude::*;
use crate::error::Error;
use crate::ident::{Ident, Str, Strings};
use crate::text::{nat_text, push_nat, push_str};
use crate::value::{Int, Value};

verus! {

/// How many arguments a function takes.
#[derive(Copy, Clone, Debug, PartialEq, Eq, Structural)]
pub enum Argc {
    Exactly(usize),
    AtLeast(usize),
}

impl Argc {
    /// Whether a call with `found` arguments is in order.
    pub open spec fn admits(self, found: nat) -> bool {
        match self {
            Argc::Exactly(n) => n == found,
            Argc::AtLeast(n) => n <= found,
        }
    }

    /// The rendering of an arity class.
    pub open spec fn text(self) -> Seq<char> {
        match self {
            Argc::Exactly(n) => "exactly "@ + nat_text(n as nat),
            Argc::AtLeast(n) => "at least "@ + nat_text(n as nat),
        }
    }

    /// Renders the arity class for a human reader.
    pub fn to_string(&self) -> (s: String)
        ensures
            s@ == self.text(),
    {
        let mut s = String::new();
        match self {
            Argc::Exactly(n) => {
                push_str(&mut s, "exactly ");
                push_nat(&mut s, *n as u64);
            },
            Argc::AtLeast(n) => {
                push_str(&mut s, "at least ");
                push_nat(&mut s, *n as u64);
            },
        }
        assert(s@ =~= self.text());
        s
    }
}

/// A function of the host that the language can call.
#[derive(Copy, Clone, Debug, PartialEq, Eq, Structural)]
pub enum NativeFn {
    Print,
    Str,
    Len,
    Split,
    New,
    Assert,
    AssertEq,
    /// A function that the host keeps under this number. The machine does
    /// not run it: a call stops the run, the host computes the result and
    /// resumes the run with it.
    Host(usize),
}

/// A binary operator of the machine.
#[derive(Copy, Clone, Debug, PartialEq, Eq, Structural)]
pub enum Binop {
    ADD,
    SUB,
    DIV,
    MUL,
    IDX,
    MATCH,
    EQ,
    NE,
}

/// An instruction. `Label` is what a jump names: a symbol while the
/// assembler works, an index into the body once the body is sealed.
#[derive(Debug)]
#[allow(inconsistent_fields)]
pub enum Op<Label = usize> {
    RET,
    DUP,
    DROP,
    NOT,
    NIL,
    CALL { name: Ident, argc: usize },
    BINOP { op: Binop },
    LOAD { src: usize },
    STORE { dst: usize },
    GROUP { num: u8 },
    GLOBALS,
    INS,
    PUSHI { value: Int },
    PUSHS { string: Str },
    PUSHN { name: Ident },
    PAT { pat: crate::pattern::Expr },
    LIST { len: usize },
    STR { len: usize },
    REC,
    JUMP { dst: Label },
    JNZ { dst: Label },
    MARK { len: usize },
    ASSERT { expr: String },
}

/// The sealed body of an interpreted function.
#[derive(Debug)]
pub struct InterpretedFn(pub Vec<Op>);

/// The body of a function: the host's or the language's own.
#[derive(Debug)]
pub enum Func {
    Native(NativeFn),
    Interpreted(InterpretedFn),
}

/// An assembled program: the `BEGIN` body, the functions by name, and the
/// pool that the program's strings are interned in.
pub struct Module {
    pub begin: InterpretedFn,
    pub functions: Vec<(Ident, Argc, Func)>,
    pub strings: Strings,
}

impl View for InterpretedFn {
    type V = Seq<Op>;

    open spec fn view(&self) -> Seq<Op> {
        self.0@
    }
}

impl InterpretedFn {
    /// Seals a sequence of instructions.
    pub fn from_vec(code: Vec<Op>) -> (f: InterpretedFn)
        ensures
            f@ == code@,
    {
        InterpretedFn(code)
    }

    /// The instruction at `pc`.
    pub fn fetch(&self, pc: usize) -> (r: Result<&Op, Error>)
        ensures
            pc < self@.len() ==> r == Ok::<&Op, Error>(&self@[pc as int]) && pc < usize::MAX,
            pc >= self@.len() ==> r == Err::<&Op, Error>(Error::PcOutOfBounds { pc }),
    {
        if pc < self.0.len() {
            Ok(&self.0[pc])
        } else {
            Err(Error::PcOutOfBounds { pc })
        }
    }

    /// The number of instructions.
    pub fn len(&self) -> (n: usize)
        ensures
            n == self@.len(),
    {
        self.0.len()
    }
}

/// The index of the first function of the table with the name `name`.
pub open spec fn function_at(functions: Seq<(Ident, Argc, Func)>, name: Seq<char>) -> Option<int>
    decreases functions.len(),
{
    if functions.len() == 0 {
        None
    } else {
        match function_at(functions.drop_last(), name) {
            Some(i) => Some(i),
            None => if functions.last().0@ == name {
                Some(functions.len() - 1)
            } else {
                None
            },
        }
    }
}

proof fn function_at_extends(functions: Seq<(Ident, Argc, Func)>, name: Seq<char>, n: int)
    requires
        0 <= n <= functions.len(),
        function_at(functions.take(n), name) is Some,
    ensures
        function_at(functions, name) == function_at(functions.take(n), name),
    decreases functions.len() - n,
{
    if n < functions.len() {
        assert(functions.take(n + 1).drop_last() =~= functions.take(n));
        function_at_extends(functions, name, n + 1);
    } else {
        assert(functions.take(n) =~= functions);
    }
}

impl Module {
    /// The index of the function named `name` in the table.
    pub fn find(&self, name: &Ident) -> (r: Option<usize>)
        ensures
            r matches Some(i) ==> i < self.functions@.len() && function_at(self.functions@, name@)
                == Some(i as int),
            r is None ==> function_at(self.functions@, name@) is None,
    {
        let mut i: usize = 0;
        while i < self.functions.len()
            invariant
                i <= self.functions.len(),
                function_at(self.functions@.take(i as int), name@) is None,
            decreases self.functions.len() - i,
        {
            proof {
                assert(self.functions@.take(i + 1).drop_last() =~= self.functions@.take(i as int));
            }
            if self.functions[i].0.same_as(name) {
                proof {
                    function_at_extends(self.functions@, name@, i + 1);
                    assert(self.functions@.take(i + 1).last() == self.functions@[i as int]);
                }
                return Some(i);
            }
            i = i + 1;
        }
        assert(self.functions@.take(self.functions.len() as int) =~= self.functions@);
        None
    }

    /// Looks a function up for a call with the arguments `argv`. A name
    /// that the table lacks gives `NoSuchLabel`; a number of arguments that
    /// the function's arity does not admit gives `WrongArgc`, which names the
    /// function, the arity and the number.
    pub fn call(&self, name: Ident, argv: &[Value]) -> (r: Result<&Func, Error>)
        ensures
            match function_at(self.functions@, name@) {
                None => r == Err::<&Func, Error>(Error::NoSuchLabel),
                Some(i) => if self.functions@[i].1.admits(argv@.len()) {
                    r == Ok::<&Func, Error>(&self.functions@[i].2)
                } else {
                    r == Err::<&Func, Error>(
                        Error::WrongArgc {
                            func: name,
                            expected: self.functions@[i].1,
                            found: argv@.len() as usize,
                        },
                    )
                },
            },
    {
        let i = match self.find(&name) {
            Some(i) => i,
            None => {
                return Err(Error::NoSuchLabel);
            },
        };
        let wanted = self.functions[i].1;
        let ok = match wanted {
            Argc::Exactly(argc) => argc == argv.len(),
            Argc::AtLeast(argc) => argc <= argv.len(),
        };
        if ok {
            Ok(&self.functions[i].2)
        } else {
            Err(Error::WrongArgc { func: name, expected: wanted, found: argv.len() })
        }
    }
}

} // verus!
