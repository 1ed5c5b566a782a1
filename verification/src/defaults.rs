//! The operators that every engine starts with.

use vstd::prelude::*;
use crate::operators::{
    binary_builtin, unary_builtin, Assoc, BinaryBuiltin, BinaryHandler, OperatorRegistry,
    UnaryBuiltin, UnaryHandler,
};
use crate::value::ValueView;

verus! {

/// The names of the built-in unary operators; `-u` and `+u` stand for the
/// prefix forms of `-` and `+`.
pub open spec fn default_unary(name: Seq<char>) -> Option<UnaryBuiltin> {
    if name == "!"@ {
        Some(UnaryBuiltin::Not)
    }     else if name == "not"@ {
        Some(UnaryBuiltin::WordNot)
    }     else if name == "-u"@ {
        Some(UnaryBuiltin::Neg)
    }     else if name == "+u"@ {
        Some(UnaryBuiltin::Pos)
    } else {
        None
    }
}

/// The names of the built-in binary operators, each with its precedence.
/// All of them group to the left.
pub open spec fn default_binary(name: Seq<char>) -> Option<(BinaryBuiltin, u8)> {
    if name == "||"@ {
        Some((BinaryBuiltin::Or, 1u8))
    }     else if name == "&&"@ {
        Some((BinaryBuiltin::And, 2u8))
    }     else if name == "or"@ {
        Some((BinaryBuiltin::WordOr, 1u8))
    }     else if name == "and"@ {
        Some((BinaryBuiltin::WordAnd, 2u8))
    }     else if name == "=="@ {
        Some((BinaryBuiltin::Eq, 3u8))
    }     else if name == "!="@ {
        Some((BinaryBuiltin::Ne, 3u8))
    }     else if name == "<"@ {
        Some((BinaryBuiltin::Lt, 4u8))
    }     else if name == "<="@ {
        Some((BinaryBuiltin::Le, 4u8))
    }     else if name == ">"@ {
        Some((BinaryBuiltin::Gt, 4u8))
    }     else if name == ">="@ {
        Some((BinaryBuiltin::Ge, 4u8))
    }     else if name == "+"@ {
        Some((BinaryBuiltin::Add, 5u8))
    }     else if name == "-"@ {
        Some((BinaryBuiltin::Sub, 5u8))
    }     else if name == "*"@ {
        Some((BinaryBuiltin::Mul, 6u8))
    }     else if name == "/"@ {
        Some((BinaryBuiltin::Div, 6u8))
    }     else if name == "%"@ {
        Some((BinaryBuiltin::Rem, 6u8))
    }     else if name == "contains"@ {
        Some((BinaryBuiltin::Contains, 3u8))
    } else {
        None
    }
}

/// Whether `reg` holds the built-in unary operators under their names and
/// no other unary operator.
pub open spec fn has_default_unary(reg: OperatorRegistry) -> bool {
    forall|name: Seq<char>|
        match default_unary(name) {
            Some(op) => (#[trigger] reg.unary_at(name)) is Some && forall|v: ValueView| #[trigger]
                reg.unary_at(name)->0.func.result(v) == unary_builtin(op, v),
            None => reg.unary_at(name) is None,
        }
}

/// Whether `reg` holds the built-in binary operators under their names, with
/// their precedences, and no other binary operator.
pub open spec fn has_default_binary(reg: OperatorRegistry) -> bool {
    forall|name: Seq<char>|
        match default_binary(name) {
            Some((op, precedence)) => (#[trigger] reg.binary_at(name)) is Some && reg.binary_at(
                name,
            )->0.spec.precedence == precedence && reg.binary_at(name)->0.spec.associativity
                == Assoc::Left && forall|a: ValueView, b: ValueView| #[trigger]
                reg.binary_at(name)->0.spec.func.result(a, b) == binary_builtin(op, a, b),
            None => reg.binary_at(name) is None,
        }
}

/// The operator names differ from one another.
proof fn lemma_names()
    ensures
        "!"@.len() == 1,
        "!"@[0] == '!',
        "not"@.len() == 3,
        "not"@[0] == 'n',
        "not"@[1] == 'o',
        "-u"@.len() == 2,
        "-u"@[0] == '-',
        "-u"@[1] == 'u',
        "+u"@.len() == 2,
        "+u"@[0] == '+',
        "+u"@[1] == 'u',
        "||"@.len() == 2,
        "||"@[0] == '|',
        "||"@[1] == '|',
        "&&"@.len() == 2,
        "&&"@[0] == '&',
        "&&"@[1] == '&',
        "or"@.len() == 2,
        "or"@[0] == 'o',
        "or"@[1] == 'r',
        "and"@.len() == 3,
        "and"@[0] == 'a',
        "and"@[1] == 'n',
        "=="@.len() == 2,
        "=="@[0] == '=',
        "=="@[1] == '=',
        "!="@.len() == 2,
        "!="@[0] == '!',
        "!="@[1] == '=',
        "<"@.len() == 1,
        "<"@[0] == '<',
        "<="@.len() == 2,
        "<="@[0] == '<',
        "<="@[1] == '=',
        ">"@.len() == 1,
        ">"@[0] == '>',
        ">="@.len() == 2,
        ">="@[0] == '>',
        ">="@[1] == '=',
        "+"@.len() == 1,
        "+"@[0] == '+',
        "-"@.len() == 1,
        "-"@[0] == '-',
        "*"@.len() == 1,
        "*"@[0] == '*',
        "/"@.len() == 1,
        "/"@[0] == '/',
        "%"@.len() == 1,
        "%"@[0] == '%',
        "contains"@.len() == 8,
        "contains"@[0] == 'c',
        "contains"@[1] == 'o',
{
    reveal_strlit("!");
    reveal_strlit("not");
    reveal_strlit("-u");
    reveal_strlit("+u");
    reveal_strlit("||");
    reveal_strlit("&&");
    reveal_strlit("or");
    reveal_strlit("and");
    reveal_strlit("==");
    reveal_strlit("!=");
    reveal_strlit("<");
    reveal_strlit("<=");
    reveal_strlit(">");
    reveal_strlit(">=");
    reveal_strlit("+");
    reveal_strlit("-");
    reveal_strlit("*");
    reveal_strlit("/");
    reveal_strlit("%");
    reveal_strlit("contains");
}

fn install_unary(reg: &mut OperatorRegistry)
    requires
        old(reg).unary@.len() == 0,
    ensures
        has_default_unary(*final(reg)),
        final(reg).binary@ == old(reg).binary@,
{
    proof {
        lemma_names();
    }
    let ghost r0 = *reg;
    reg.set_unary("!", UnaryHandler::builtin(UnaryBuiltin::Not));
    let ghost r1 = *reg;
    reg.set_unary("not", UnaryHandler::builtin(UnaryBuiltin::WordNot));
    let ghost r2 = *reg;
    reg.set_unary("-u", UnaryHandler::builtin(UnaryBuiltin::Neg));
    let ghost r3 = *reg;
    reg.set_unary("+u", UnaryHandler::builtin(UnaryBuiltin::Pos));
    proof {
        assert forall|name: Seq<char>|
            match default_unary(name) {
                Some(op) => (#[trigger] reg.unary_at(name)) is Some && forall|v: ValueView| #[trigger]
                    reg.unary_at(name)->0.func.result(v) == unary_builtin(op, v),
                None => reg.unary_at(name) is None,
            } by {
            if name == "+u"@ {
                assert(reg.unary_at(name) is Some);
            } else {
                assert(reg.unary_at(name) == r3.unary_at(name));
                if name == "-u"@ {
                    assert(r3.unary_at(name) is Some);
                } else {
                    assert(r3.unary_at(name) == r2.unary_at(name));
                    if name == "not"@ {
                        assert(r2.unary_at(name) is Some);
                    } else {
                        assert(r2.unary_at(name) == r1.unary_at(name));
                        if name == "!"@ {
                            assert(r1.unary_at(name) is Some);
                        } else {
                            assert(r1.unary_at(name) == r0.unary_at(name));
                            assert(r0.unary_at(name) is None);
                        }
                    }
                }
            }
        }
    }
}

fn install_binary(reg: &mut OperatorRegistry)
    requires
        old(reg).binary@.len() == 0,
    ensures
        has_default_binary(*final(reg)),
        final(reg).unary@ == old(reg).unary@,
{
    proof {
        lemma_names();
    }
    let ghost r0 = *reg;
    reg.set_binary("||", 1, Assoc::Left, BinaryHandler::builtin(BinaryBuiltin::Or));
    let ghost r1 = *reg;
    reg.set_binary("&&", 2, Assoc::Left, BinaryHandler::builtin(BinaryBuiltin::And));
    let ghost r2 = *reg;
    reg.set_binary("or", 1, Assoc::Left, BinaryHandler::builtin(BinaryBuiltin::WordOr));
    let ghost r3 = *reg;
    reg.set_binary("and", 2, Assoc::Left, BinaryHandler::builtin(BinaryBuiltin::WordAnd));
    let ghost r4 = *reg;
    reg.set_binary("==", 3, Assoc::Left, BinaryHandler::builtin(BinaryBuiltin::Eq));
    let ghost r5 = *reg;
    reg.set_binary("!=", 3, Assoc::Left, BinaryHandler::builtin(BinaryBuiltin::Ne));
    let ghost r6 = *reg;
    reg.set_binary("<", 4, Assoc::Left, BinaryHandler::builtin(BinaryBuiltin::Lt));
    let ghost r7 = *reg;
    reg.set_binary("<=", 4, Assoc::Left, BinaryHandler::builtin(BinaryBuiltin::Le));
    let ghost r8 = *reg;
    reg.set_binary(">", 4, Assoc::Left, BinaryHandler::builtin(BinaryBuiltin::Gt));
    let ghost r9 = *reg;
    reg.set_binary(">=", 4, Assoc::Left, BinaryHandler::builtin(BinaryBuiltin::Ge));
    let ghost r10 = *reg;
    reg.set_binary("+", 5, Assoc::Left, BinaryHandler::builtin(BinaryBuiltin::Add));
    let ghost r11 = *reg;
    reg.set_binary("-", 5, Assoc::Left, BinaryHandler::builtin(BinaryBuiltin::Sub));
    let ghost r12 = *reg;
    reg.set_binary("*", 6, Assoc::Left, BinaryHandler::builtin(BinaryBuiltin::Mul));
    let ghost r13 = *reg;
    reg.set_binary("/", 6, Assoc::Left, BinaryHandler::builtin(BinaryBuiltin::Div));
    let ghost r14 = *reg;
    reg.set_binary("%", 6, Assoc::Left, BinaryHandler::builtin(BinaryBuiltin::Rem));
    let ghost r15 = *reg;
    reg.set_binary("contains", 3, Assoc::Left, BinaryHandler::builtin(BinaryBuiltin::Contains));
    proof {
        assert forall|name: Seq<char>|
            match default_binary(name) {
                Some((op, precedence)) => (#[trigger] reg.binary_at(name)) is Some && reg.binary_at(
                    name,
                )->0.spec.precedence == precedence && reg.binary_at(name)->0.spec.associativity
                    == Assoc::Left && forall|a: ValueView, b: ValueView| #[trigger]
                    reg.binary_at(name)->0.spec.func.result(a, b) == binary_builtin(op, a, b),
                None => reg.binary_at(name) is None,
            } by {
            if name == "contains"@ {
                assert(reg.binary_at(name) is Some);
            } else {
                assert(reg.binary_at(name) == r15.binary_at(name));
                if name == "%"@ {
                    assert(r15.binary_at(name) is Some);
                } else {
                    assert(r15.binary_at(name) == r14.binary_at(name));
                    if name == "/"@ {
                        assert(r14.binary_at(name) is Some);
                    } else {
                        assert(r14.binary_at(name) == r13.binary_at(name));
                        if name == "*"@ {
                            assert(r13.binary_at(name) is Some);
                        } else {
                            assert(r13.binary_at(name) == r12.binary_at(name));
                            if name == "-"@ {
                                assert(r12.binary_at(name) is Some);
                            } else {
                                assert(r12.binary_at(name) == r11.binary_at(name));
                                if name == "+"@ {
                                    assert(r11.binary_at(name) is Some);
                                } else {
                                    assert(r11.binary_at(name) == r10.binary_at(name));
                                    if name == ">="@ {
                                        assert(r10.binary_at(name) is Some);
                                    } else {
                                        assert(r10.binary_at(name) == r9.binary_at(name));
                                        if name == ">"@ {
                                            assert(r9.binary_at(name) is Some);
                                        } else {
                                            assert(r9.binary_at(name) == r8.binary_at(name));
                                            if name == "<="@ {
                                                assert(r8.binary_at(name) is Some);
                                            } else {
                                                assert(r8.binary_at(name) == r7.binary_at(name));
                                                if name == "<"@ {
                                                    assert(r7.binary_at(name) is Some);
                                                } else {
                                                    assert(r7.binary_at(name) == r6.binary_at(name));
                                                    if name == "!="@ {
                                                        assert(r6.binary_at(name) is Some);
                                                    } else {
                                                        assert(r6.binary_at(name) == r5.binary_at(name));
                                                        if name == "=="@ {
                                                            assert(r5.binary_at(name) is Some);
                                                        } else {
                                                            assert(r5.binary_at(name) == r4.binary_at(name));
                                                            if name == "and"@ {
                                                                assert(r4.binary_at(name) is Some);
                                                            } else {
                                                                assert(r4.binary_at(name) == r3.binary_at(name));
                                                                if name == "or"@ {
                                                                    assert(r3.binary_at(name) is Some);
                                                                } else {
                                                                    assert(r3.binary_at(name) == r2.binary_at(name));
                                                                    if name == "&&"@ {
                                                                        assert(r2.binary_at(name) is Some);
                                                                    } else {
                                                                        assert(r2.binary_at(name) == r1.binary_at(name));
                                                                        if name == "||"@ {
                                                                            assert(r1.binary_at(name) is Some);
                                                                        } else {
                                                                            assert(r1.binary_at(name) == r0.binary_at(name));
                                                                            assert(r0.binary_at(name) is None);
                                                                        }
                                                                    }
                                                                }
                                                            }
                                                        }
                                                    }
                                                }
                                            }
                                        }
                                    }
                                }
                            }
                        }
                    }
                }
            }
        }
    }
}

impl Default for OperatorRegistry {
    /// The registry of the built-in operators.
    fn default() -> (r: OperatorRegistry)
        ensures
            has_default_unary(r),
            has_default_binary(r),
    {
        let mut reg = OperatorRegistry::new();
        install_unary(&mut reg);
        let ghost mid = reg;
        install_binary(&mut reg);
        proof {
            assert forall|name: Seq<char>| #[trigger] reg.unary_at(name) == mid.unary_at(name) by {}
        }
        reg
    }
}

} // verus!
