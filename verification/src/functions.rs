//! Named functions of the expression language: their handlers, the built-in
//! ones, and the registry that the evaluator consults.

use vstd::prelude::*;
use vstd::string::StrSliceExecFns;
use crate::error::{EngineError, ErrorView};
use crate::float::{
    float_from_int, float_magnitude, float_maximum, float_minimum, from_int, magnitude, maximum,
    minimum,
};
use crate::operators::{eval_error, fail, outcome};
use crate::text::{
    find_name, lemma_found_name, lemma_same_names, lowercase_of, text_equal, text_lower,
    text_upper, uppercase_of,
};
use crate::value::{lemma_fields_view, lemma_values_view, values_view, Value, ValueView};

verus! {

/// A function's handler: a pure function of its arguments.
pub trait FunctionFn {
    /// What the handler gives for arguments with these contents.
    spec fn result(&self, args: Seq<ValueView>) -> Result<ValueView, ErrorView>;

    fn call(&self, args: &[Value]) -> (r: Result<Value, EngineError>)
        ensures
            outcome(r) == self.result(values_view(args@)),
    ;
}

/// Whether `f` can be called on every list of arguments and what it gives
/// depends on their contents alone.
pub open spec fn function_pure<F: Fn(&[Value]) -> Result<Value, EngineError>>(f: F) -> bool {
    &&& forall|a: &[Value]| call_requires(f, (a,))
    &&& forall|
        a1: &[Value],
        r1: Result<Value, EngineError>,
        a2: &[Value],
        r2: Result<Value, EngineError>,
    |
        values_view(a1@) == values_view(a2@) && #[trigger] call_ensures(f, (a1,), r1)
            && #[trigger] call_ensures(f, (a2,), r2) ==> outcome(r1) == outcome(r2)
}

/// What the pure closure `f` gives for arguments with these contents.
pub open spec fn function_closure_result<F: Fn(&[Value]) -> Result<Value, EngineError>>(
    f: F,
    args: Seq<ValueView>,
) -> Result<ValueView, ErrorView> {
    let t = choose|t: (&[Value], Result<Value, EngineError>)|
        values_view(t.0@) == args && #[trigger] call_ensures(f, (t.0,), t.1);
    outcome(t.1)
}

/// A pure closure as a function's handler.
pub struct FunctionClosure<F: Fn(&[Value]) -> Result<Value, EngineError>> {
    f: F,
}

impl<F: Fn(&[Value]) -> Result<Value, EngineError>> FunctionClosure<F> {
    #[verifier::type_invariant]
    spec fn pure(self) -> bool {
        function_pure(self.f)
    }

    pub closed spec fn closure(self) -> F {
        self.f
    }

    pub fn new(f: F) -> (h: FunctionClosure<F>)
        requires
            function_pure(f),
        ensures
            h.closure() == f,
    {
        FunctionClosure { f }
    }
}

impl<F: Fn(&[Value]) -> Result<Value, EngineError>> FunctionFn for FunctionClosure<F> {
    open spec fn result(&self, args: Seq<ValueView>) -> Result<ValueView, ErrorView> {
        function_closure_result(self.closure(), args)
    }

    fn call(&self, args: &[Value]) -> (r: Result<Value, EngineError>) {
        proof {
            use_type_invariant(self);
        }
        let r = (self.f)(args);
        let ghost t = (args, r);
        assert(values_view(t.0@) == values_view(args@) && call_ensures(self.f, (t.0,), t.1));
        r
    }
}

/// The built-in functions.
#[derive(Debug, Clone, Copy, PartialEq, Eq, Structural)]
pub enum FunctionBuiltin {
    Len,
    Lower,
    Upper,
    Abs,
    Min,
    Max,
}

/// A length as an Int, refused where it does not fit one.
pub open spec fn length_value(n: nat) -> Result<ValueView, ErrorView> {
    if n <= i64::MAX {
        Ok(ValueView::Int(n as i64))
    } else {
        eval_error("length out of range"@)
    }
}

/// The smaller (`least`) or larger of two numbers: of two Ints an Int,
/// otherwise a Float with an Int converted; a NaN beside a number is ignored.
pub open spec fn pick_number(a: ValueView, b: ValueView, least: bool) -> Option<ValueView> {
    match (a, b) {
        (ValueView::Int(x), ValueView::Int(y)) => Some(
            ValueView::Int(
                if (x <= y) == least {
                    x
                } else {
                    y
                },
            ),
        ),
        (ValueView::Float(x), ValueView::Float(y)) => Some(
            ValueView::Float(
                if least {
                    minimum(x, y)
                } else {
                    maximum(x, y)
                },
            ),
        ),
        (ValueView::Int(x), ValueView::Float(y)) => Some(
            ValueView::Float(
                if least {
                    minimum(from_int(x), y)
                } else {
                    maximum(from_int(x), y)
                },
            ),
        ),
        (ValueView::Float(x), ValueView::Int(y)) => Some(
            ValueView::Float(
                if least {
                    minimum(x, from_int(y))
                } else {
                    maximum(x, from_int(y))
                },
            ),
        ),
        _ => None,
    }
}

/// What a built-in function gives. `len` counts the characters of a string,
/// the elements of a list or the fields of a struct; `lower` and `upper`
/// change the case of a string; `abs` gives the magnitude of a number; `min`
/// and `max` pick one of two numbers.
pub open spec fn function_builtin(op: FunctionBuiltin, args: Seq<ValueView>) -> Result<
    ValueView,
    ErrorView,
> {
    match op {
        FunctionBuiltin::Len => if args.len() == 1 {
            match args[0] {
                ValueView::Str(s) => length_value(s.len()),
                ValueView::List(items) => length_value(items.len()),
                ValueView::Struct(fields) => length_value(fields.len()),
                _ => eval_error("len expects one string, list, or struct"@),
            }
        } else {
            eval_error("len expects one string, list, or struct"@)
        },
        FunctionBuiltin::Lower => if args.len() == 1 && args[0] is Str {
            Ok(ValueView::Str(lowercase_of(args[0]->Str_0)))
        } else {
            eval_error("lower expects one string"@)
        },
        FunctionBuiltin::Upper => if args.len() == 1 && args[0] is Str {
            Ok(ValueView::Str(uppercase_of(args[0]->Str_0)))
        } else {
            eval_error("upper expects one string"@)
        },
        FunctionBuiltin::Abs => if args.len() == 1 {
            match args[0] {
                ValueView::Int(n) => if n == i64::MIN {
                    eval_error("integer overflow"@)
                } else if n < 0 {
                    Ok(ValueView::Int((-n) as i64))
                } else {
                    Ok(ValueView::Int(n))
                },
                ValueView::Float(x) => Ok(ValueView::Float(magnitude(x))),
                _ => eval_error("abs expects one number"@),
            }
        } else {
            eval_error("abs expects one number"@)
        },
        FunctionBuiltin::Min => if args.len() == 2 {
            match pick_number(args[0], args[1], true) {
                Some(v) => Ok(v),
                None => eval_error("min expects numbers"@),
            }
        } else {
            eval_error("min expects two arguments"@)
        },
        FunctionBuiltin::Max => if args.len() == 2 {
            match pick_number(args[0], args[1], false) {
                Some(v) => Ok(v),
                None => eval_error("max expects numbers"@),
            }
        } else {
            eval_error("max expects two arguments"@)
        },
    }
}

/// A length as an Int.
pub fn length_of(n: usize) -> (r: Result<Value, EngineError>)
    ensures
        outcome(r) == length_value(n as nat),
{
    if n as u64 <= 0x7FFF_FFFF_FFFF_FFFFu64 {
        Ok(Value::Int(n as i64))
    } else {
        fail("length out of range")
    }
}

/// The smaller (`least`) or larger of two numbers.
pub fn pick_of(a: &Value, b: &Value, least: bool) -> (r: Option<Value>)
    ensures
        match r {
            Some(v) => pick_number(a@, b@, least) == Some(v@),
            None => pick_number(a@, b@, least) is None,
        },
{
    match (a, b) {
        (Value::Int(x), Value::Int(y)) => {
            let p: i64 = *x;
            let q: i64 = *y;
            Some(
                Value::Int(
                    if (p <= q) == least {
                        p
                    } else {
                        q
                    },
                ),
            )
        },
        (Value::Float(x), Value::Float(y)) => Some(
            Value::Float(
                if least {
                    float_minimum(*x, *y)
                } else {
                    float_maximum(*x, *y)
                },
            ),
        ),
        (Value::Int(x), Value::Float(y)) => {
            let p = float_from_int(*x);
            Some(
                Value::Float(
                    if least {
                        float_minimum(p, *y)
                    } else {
                        float_maximum(p, *y)
                    },
                ),
            )
        },
        (Value::Float(x), Value::Int(y)) => {
            let q = float_from_int(*y);
            Some(
                Value::Float(
                    if least {
                        float_minimum(*x, q)
                    } else {
                        float_maximum(*x, q)
                    },
                ),
            )
        },
        _ => None,
    }
}

fn apply_function(op: FunctionBuiltin, args: &[Value]) -> (r: Result<Value, EngineError>)
    ensures
        outcome(r) == function_builtin(op, values_view(args@)),
{
    proof {
        lemma_values_view(args@);
    }
    match op {
        FunctionBuiltin::Len => {
            if args.len() != 1 {
                return fail("len expects one string, list, or struct");
            }
            match &args[0] {
                Value::String(s) => length_of(s.as_str().unicode_len()),
                Value::List(items) => {
                    proof {
                        lemma_values_view(items@);
                    }
                    length_of(items.len())
                },
                Value::Struct(m) => length_of(m.len()),
                _ => fail("len expects one string, list, or struct"),
            }
        },
        FunctionBuiltin::Lower => {
            if args.len() != 1 {
                return fail("lower expects one string");
            }
            match &args[0] {
                Value::String(s) => Ok(Value::String(text_lower(s.as_str()))),
                _ => fail("lower expects one string"),
            }
        },
        FunctionBuiltin::Upper => {
            if args.len() != 1 {
                return fail("upper expects one string");
            }
            match &args[0] {
                Value::String(s) => Ok(Value::String(text_upper(s.as_str()))),
                _ => fail("upper expects one string"),
            }
        },
        FunctionBuiltin::Abs => {
            if args.len() != 1 {
                return fail("abs expects one number");
            }
            match &args[0] {
                Value::Int(n) => {
                    let x: i64 = *n;
                    if x == i64::MIN {
                        fail("integer overflow")
                    } else if x < 0 {
                        Ok(Value::Int(-x))
                    } else {
                        Ok(Value::Int(x))
                    }
                },
                Value::Float(x) => Ok(Value::Float(float_magnitude(*x))),
                _ => fail("abs expects one number"),
            }
        },
        FunctionBuiltin::Min => {
            if args.len() != 2 {
                return fail("min expects two arguments");
            }
            match pick_of(&args[0], &args[1], true) {
                Some(v) => Ok(v),
                None => fail("min expects numbers"),
            }
        },
        FunctionBuiltin::Max => {
            if args.len() != 2 {
                return fail("max expects two arguments");
            }
            match pick_of(&args[0], &args[1], false) {
                Some(v) => Ok(v),
                None => fail("max expects numbers"),
            }
        },
    }
}

impl FunctionFn for FunctionBuiltin {
    open spec fn result(&self, args: Seq<ValueView>) -> Result<ValueView, ErrorView> {
        function_builtin(*self, args)
    }

    fn call(&self, args: &[Value]) -> (r: Result<Value, EngineError>) {
        apply_function(*self, args)
    }
}

/// A function's handler, built-in or supplied.
pub struct FunctionHandler {
    pub func: Box<dyn FunctionFn>,
}

impl FunctionHandler {
    /// What the handler gives for arguments with these contents.
    pub open spec fn result(&self, args: Seq<ValueView>) -> Result<ValueView, ErrorView> {
        self.func.result(args)
    }

    /// The handler of a built-in function.
    pub fn builtin(op: FunctionBuiltin) -> (h: FunctionHandler)
        ensures
            forall|args: Seq<ValueView>| #[trigger] h.result(args) == function_builtin(op, args),
    {
        FunctionHandler { func: Box::new(op) }
    }

    /// The handler that calls the pure closure `f`.
    pub fn closure<F>(f: F) -> (h: FunctionHandler) where
        F: Fn(&[Value]) -> Result<Value, EngineError> + Send + Sync + 'static,

        requires
            function_pure(f),
        ensures
            forall|args: Seq<ValueView>| #[trigger]
                h.result(args) == function_closure_result(f, args),
    {
        Self::of_closure(FunctionClosure::new(f))
    }

    fn of_closure<F>(c: FunctionClosure<F>) -> (h: FunctionHandler) where
        F: Fn(&[Value]) -> Result<Value, EngineError> + Send + Sync + 'static,

        ensures
            forall|args: Seq<ValueView>| #[trigger] h.result(args) == c.result(args),
    {
        FunctionHandler { func: Box::new(c) }
    }

    /// Applies the handler.
    pub fn call(&self, args: &[Value]) -> (r: Result<Value, EngineError>)
        ensures
            outcome(r) == self.result(values_view(args@)),
    {
        self.func.call(args)
    }
}

/// A registered function.
pub struct FunctionEntry {
    pub name: String,
    pub func: FunctionHandler,
}

/// The functions known to an engine, by name; one entry per name.
pub struct FunctionRegistry {
    pub funcs: Vec<FunctionEntry>,
}

/// The names of `entries`, in order.
pub open spec fn function_names(entries: Seq<FunctionEntry>) -> Seq<Seq<char>> {
    Seq::new(entries.len(), |j: int| entries[j].name@)
}

/// The position of the first entry called `name`, from `i` on.
pub open spec fn find_function(entries: Seq<FunctionEntry>, name: Seq<char>, i: int) -> Option<int> {
    find_name(function_names(entries), name, i)
}

/// The names of the built-in functions.
pub open spec fn default_function(name: Seq<char>) -> Option<FunctionBuiltin> {
    if name == "len"@ {
        Some(FunctionBuiltin::Len)
    } else if name == "lower"@ {
        Some(FunctionBuiltin::Lower)
    } else if name == "upper"@ {
        Some(FunctionBuiltin::Upper)
    } else if name == "abs"@ {
        Some(FunctionBuiltin::Abs)
    } else if name == "min"@ {
        Some(FunctionBuiltin::Min)
    } else if name == "max"@ {
        Some(FunctionBuiltin::Max)
    } else {
        None
    }
}

impl FunctionRegistry {
    /// The function called `name`.
    pub open spec fn at(&self, name: Seq<char>) -> Option<FunctionEntry> {
        match find_function(self.funcs@, name, 0) {
            Some(k) => Some(self.funcs@[k]),
            None => None,
        }
    }

    /// What the function called `name` gives for `args`.
    pub open spec fn result(&self, name: Seq<char>, args: Seq<ValueView>) -> Option<
        Result<ValueView, ErrorView>,
    > {
        match self.at(name) {
            Some(e) => Some(e.func.result(args)),
            None => None,
        }
    }

    /// Whether this registry holds the built-in functions under their names
    /// and nothing else.
    pub open spec fn is_default(&self) -> bool {
        forall|name: Seq<char>|
            match default_function(name) {
                Some(op) => (#[trigger] self.at(name)) is Some && forall|args: Seq<ValueView>| #[trigger]
                    self.at(name)->0.func.result(args) == function_builtin(op, args),
                None => self.at(name) is None,
            }
    }

    /// A registry without functions.
    pub fn new() -> (r: FunctionRegistry)
        ensures
            r.funcs@.len() == 0,
    {
        FunctionRegistry { funcs: Vec::new() }
    }

    /// The handler of the function called `name`.
    pub fn get(&self, name: &str) -> (r: Option<&FunctionHandler>)
        ensures
            match r {
                Some(h) => self.at(name@) is Some && self.at(name@)->0.func == *h,
                None => self.at(name@) is None,
            },
    {
        let mut i: usize = 0;
        while i < self.funcs.len()
            invariant
                i <= self.funcs.len(),
                find_function(self.funcs@, name@, 0) == find_function(self.funcs@, name@, i as int),
            decreases self.funcs.len() - i,
        {
            if text_equal(self.funcs[i].name.as_str(), name) {
                return Some(&self.funcs[i].func);
            }
            i += 1;
        }
        None
    }

    /// Registers `handler` as the function `name`, in place of an earlier one
    /// of that name.
    pub fn set(&mut self, name: &str, handler: FunctionHandler)
        ensures
            final(self).at(name@) is Some,
            final(self).at(name@)->0.func == handler,
            forall|other: Seq<char>|
                other != name@ ==> #[trigger] final(self).at(other) == old(self).at(other),
    {
        let ghost before = self.funcs@;
        let mut i: usize = 0;
        while i < self.funcs.len()
            invariant
                i <= self.funcs.len(),
                self.funcs@ == before,
                before == old(self).funcs@,
                forall|j: int| 0 <= j < i ==> before[j].name@ != name@,
            decreases self.funcs.len() - i,
        {
            if text_equal(self.funcs[i].name.as_str(), name) {
                self.funcs[i] = FunctionEntry { name: name.to_owned(), func: handler };
                proof {
                    let after = self.funcs@;
                    lemma_found_name(function_names(after), name@, 0, i as int);
                    assert forall|other: Seq<char>| other != name@ implies find_function(
                        after,
                        other,
                        0,
                    ) == find_function(before, other, 0) && (find_function(
                        before,
                        other,
                        0,
                    ) matches Some(k) ==> after[k] == before[k]) by {
                        lemma_same_names(function_names(before), function_names(after), other, 0);
                    }
                }
                return ;
            }
            i += 1;
        }
        self.funcs.push(FunctionEntry { name: name.to_owned(), func: handler });
        proof {
            let after = self.funcs@;
            lemma_found_name(function_names(after), name@, 0, before.len() as int);
            assert forall|other: Seq<char>| other != name@ implies find_function(after, other, 0)
                == find_function(before, other, 0) && (find_function(before, other, 0) matches Some(
                k,
            ) ==> after[k] == before[k]) by {
                lemma_same_names(function_names(before), function_names(after), other, 0);
            }
        }
    }

    /// Registers the pure closure `f` as the function `name`.
    pub fn register<F>(&mut self, name: &str, f: F) where
        F: Fn(&[Value]) -> Result<Value, EngineError> + Send + Sync + 'static,

        requires
            function_pure(f),
        ensures
            forall|args: Seq<ValueView>| #[trigger]
                final(self).result(name@, args) == Some(function_closure_result(f, args)),
            forall|other: Seq<char>|
                other != name@ ==> #[trigger] final(self).at(other) == old(self).at(other),
    {
        self.set(name, FunctionHandler::closure(f));
    }
}

impl Default for FunctionRegistry {
    /// The registry of the built-in functions.
    fn default() -> (r: FunctionRegistry)
        ensures
            r.is_default(),
    {
        let mut reg = FunctionRegistry::new();
        proof {
            reveal_strlit("len");
            reveal_strlit("lower");
            reveal_strlit("upper");
            reveal_strlit("abs");
            reveal_strlit("min");
            reveal_strlit("max");
            assert("len"@.len() == 3 && "abs"@.len() == 3 && "min"@.len() == 3 && "max"@.len() == 3);
            assert("lower"@.len() == 5 && "upper"@.len() == 5);
            assert("len"@[0] == 'l' && "abs"@[0] == 'a' && "min"@[0] == 'm' && "max"@[0] == 'm');
            assert("min"@[1] == 'i' && "max"@[1] == 'a');
            assert("lower"@[0] == 'l' && "upper"@[0] == 'u');
        }
        let ghost r0 = reg;
        reg.set("len", FunctionHandler::builtin(FunctionBuiltin::Len));
        let ghost r1 = reg;
        reg.set("lower", FunctionHandler::builtin(FunctionBuiltin::Lower));
        let ghost r2 = reg;
        reg.set("upper", FunctionHandler::builtin(FunctionBuiltin::Upper));
        let ghost r3 = reg;
        reg.set("abs", FunctionHandler::builtin(FunctionBuiltin::Abs));
        let ghost r4 = reg;
        reg.set("min", FunctionHandler::builtin(FunctionBuiltin::Min));
        let ghost r5 = reg;
        reg.set("max", FunctionHandler::builtin(FunctionBuiltin::Max));
        proof {
            assert forall|name: Seq<char>|
                match default_function(name) {
                    Some(op) => (#[trigger] reg.at(name)) is Some && forall|args: Seq<ValueView>| #[trigger]
                        reg.at(name)->0.func.result(args) == function_builtin(op, args),
                    None => reg.at(name) is None,
                } by {
                if name == "max"@ {
                    assert(default_function(name) == Some(FunctionBuiltin::Max));
                    assert(reg.at(name) is Some);
                } else {
                    assert(reg.at(name) == r5.at(name));
                    if name == "min"@ {
                        assert(default_function(name) == Some(FunctionBuiltin::Min));
                        assert(r5.at(name) is Some);
                    } else {
                        assert(r5.at(name) == r4.at(name));
                        if name == "abs"@ {
                            assert(default_function(name) == Some(FunctionBuiltin::Abs));
                            assert(r4.at(name) is Some);
                        } else {
                            assert(r4.at(name) == r3.at(name));
                            if name == "upper"@ {
                                assert(default_function(name) == Some(FunctionBuiltin::Upper));
                                assert(r3.at(name) is Some);
                            } else {
                                assert(r3.at(name) == r2.at(name));
                                if name == "lower"@ {
                                    assert(default_function(name) == Some(FunctionBuiltin::Lower));
                                    assert(r2.at(name) is Some);
                                } else {
                                    assert(r2.at(name) == r1.at(name));
                                    if name == "len"@ {
                                        assert(default_function(name) == Some(FunctionBuiltin::Len));
                                        assert(r1.at(name) is Some);
                                    } else {
                                        assert(r1.at(name) == r0.at(name));
                                        assert(r0.at(name) is None);
                                        assert(default_function(name) is None);
                                    }
                                }
                            }
                        }
                    }
                }
            }
        }
        reg
    }
}

} // verus!
