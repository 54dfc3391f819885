//! The persistent list and the built-in functions.

use std::rc::Rc;
use vstd::prelude::*;

use crate::expr::{flat_copy, ExprAST};
use crate::interpreter::EvalError;
use crate::text::{
    all_digits, char_codes, chars_of, code_of, fits_i64, is_digit_code, is_numeral, numeral_bytes,
    numeral_code, numeral_value, parse_numeral, str_eq, string_from_chars, string_of,
};

verus! {

/// A node of an immutable singly-linked list. `len` caches the number of
/// elements from this node on; the empty list is a node of length 0 whose
/// value is a placeholder. Tails are shared, never copied.
#[derive(Debug)]
pub struct IroncamelLinkedList {
    pub value: Box<ExprAST>,
    pub len: usize,
    pub next: Option<Rc<IroncamelLinkedList>>,
}

impl IroncamelLinkedList {
    /// The elements of the list, first to last.
    pub open spec fn elements(&self) -> Seq<ExprAST>
        decreases self,
    {
        if self.len == 0 {
            Seq::empty()
        } else {
            seq![*self.value] + match self.next {
                Some(t) => t.elements(),
                None => Seq::empty(),
            }
        }
    }

    /// Each node's cached length is one more than its tail's; a node without
    /// a tail holds at most one element.
    pub open spec fn well_formed(&self) -> bool
        decreases self,
    {
        match self.next {
            Some(t) => t.well_formed() && self.len == t.len + 1,
            None => self.len <= 1,
        }
    }

    pub open spec fn is_empty_list(&self) -> bool {
        self.len == 0 && self.next is None && *self.value == ExprAST::Error
    }

    /// The empty list.
    pub fn build_empty_list() -> (r: IroncamelLinkedList)
        ensures
            r == empty_list(),
            r.is_empty_list(),
            r.well_formed(),
            r.elements() == Seq::<ExprAST>::empty(),
    {
        IroncamelLinkedList { value: Box::new(ExprAST::Error), len: 0, next: None }
    }

    /// The list holding one element.
    pub fn build(expr: ExprAST) -> (r: IroncamelLinkedList)
        ensures
            r.len == 1,
            *r.value == expr,
            r.next is None,
            r.well_formed(),
            r.elements() == seq![expr],
    {
        IroncamelLinkedList { value: Box::new(expr), len: 1, next: None }
    }

    /// `expr` in front of `tail`, which is shared, not copied.
    pub fn cons(expr: ExprAST, tail: &Rc<IroncamelLinkedList>) -> (r: IroncamelLinkedList)
        requires
            tail.len < usize::MAX,
        ensures
            r == cons_node(expr, *tail),
            tail.well_formed() ==> r.well_formed(),
            r.elements() == seq![expr] + tail.elements(),
    {
        IroncamelLinkedList { value: Box::new(expr), len: 1 + tail.len, next: Some(Rc::clone(tail)) }
    }

    /// The first element.
    pub fn hd(&self) -> (r: &ExprAST)
        requires
            self.len > 0,
        ensures
            *r == *self.value,
            *r == self.elements()[0],
    {
        &self.value
    }

    /// The shared tail of a list of two or more elements; `None` for one.
    pub fn tl(&self) -> (r: Option<Rc<IroncamelLinkedList>>)
        requires
            self.len > 0,
        ensures
            r == tail_of(*self),
            self.well_formed() ==> match r {
                Some(t) => t.well_formed() && t.elements() == self.elements().drop_first(),
                None => self.elements().len() == 1,
            },
    {
        proof {
            if self.well_formed() {
                law_cached_length_counts_elements(self);
            }
        }
        if self.len > 1 {
            match &self.next {
                Some(t) => {
                    proof {
                        assert(self.elements() =~= seq![*self.value] + t.elements());
                    }
                    Some(Rc::clone(t))
                },
                None => None,
            }
        } else {
            None
        }
    }

    /// The list holding `exprs`, in order.
    fn build_list(exprs: Vec<ExprAST>) -> (r: IroncamelLinkedList)
        ensures
            r == list_of(exprs@),
    {
        let ghost all = exprs@;
        let total = exprs.len();
        let mut exprs = exprs;
        match exprs.pop() {
            None => IroncamelLinkedList::build_empty_list(),
            Some(last) => {
                let mut cur = IroncamelLinkedList::build(last);
                proof {
                    assert(cur == list_of(all.subrange(all.len() - 1, all.len() as int)));
                }
                while exprs.len() > 0
                    invariant
                        exprs@ == all.subrange(0, exprs.len() as int),
                        exprs.len() < all.len(),
                        all.len() == total,
                        cur.len == all.len() - exprs.len(),
                        cur == list_of(all.subrange(exprs.len() as int, all.len() as int)),
                    decreases exprs.len(),
                {
                    let ghost k = exprs.len() - 1;
                    match exprs.pop() {
                        Some(x) => {
                            let tail = Rc::new(cur);
                            cur = IroncamelLinkedList::cons(x, &tail);
                            proof {
                                assert(all.subrange(k, all.len() as int).drop_first() =~= all.subrange(
                                    k + 1,
                                    all.len() as int,
                                ));
                                assert(exprs@ =~= all.subrange(0, k));
                            }
                        },
                        None => {},
                    }
                }
                proof {
                    assert(all.subrange(0, all.len() as int) =~= all);
                }
                cur
            },
        }
    }

    /// The elements as integers, first to last.
    pub fn as_vector_i64(&self) -> (r: Vec<i64>)
        requires
            self.well_formed(),
            forall|i: int| 0 <= i < self.elements().len() ==> self.elements()[i] is Int,
        ensures
            r@.len() == self.elements().len(),
            forall|i: int| 0 <= i < r@.len() ==> self.elements()[i] == ExprAST::Int(r@[i]),
    {
        let exprs = self.as_vector();
        let mut r: Vec<i64> = Vec::new();
        let mut i: usize = 0;
        while i < exprs.len()
            invariant
                i <= exprs@.len(),
                exprs@.len() == self.elements().len(),
                forall|k: int| 0 <= k < exprs@.len() ==> *exprs@[k] == flat_copy(self.elements()[k]),
                forall|k: int| 0 <= k < self.elements().len() ==> self.elements()[k] is Int,
                r@.len() == i,
                forall|k: int| 0 <= k < i ==> self.elements()[k] == ExprAST::Int(r@[k]),
            decreases exprs.len() - i,
        {
            match &*exprs[i] {
                ExprAST::Int(x) => r.push(*x),
                _ => r.push(0),
            }
            i += 1;
        }
        r
    }

    /// The elements, first to last.
    pub fn as_vector(&self) -> (r: Vec<Box<ExprAST>>)
        requires
            self.well_formed(),
        ensures
            r@.len() == self.elements().len(),
            forall|i: int| 0 <= i < r@.len() ==> *r@[i] == flat_copy(self.elements()[i]),
    {
        proof {
            law_cached_length_counts_elements(self);
        }
        let mut r: Vec<Box<ExprAST>> = Vec::new();
        let mut cur: &IroncamelLinkedList = self;
        let ghost n = self.elements().len();
        while cur.len > 0
            invariant_except_break
                r@.len() + cur.elements().len() == n,
                cur.elements() == self.elements().subrange(r@.len() as int, n as int),
            invariant
                cur.well_formed(),
                n == self.elements().len(),
                forall|i: int| 0 <= i < r@.len() ==> *r@[i] == flat_copy(self.elements()[i]),
            ensures
                r@.len() == n,
            decreases cur.len,
        {
            proof {
                law_cached_length_counts_elements(cur);
                assert(cur.elements()[0] == self.elements()[r@.len() as int]);
            }
            r.push(Box::new(cur.value.copy_flat()));
            match &cur.next {
                Some(t) => {
                    proof {
                        assert(t.elements() =~= cur.elements().drop_first());
                        assert(t.elements() =~= self.elements().subrange(r@.len() as int, n as int));
                    }
                    cur = t;
                },
                None => {
                    break;
                },
            }
        }
        r
    }
}

/// The node that `cons` builds: `expr` in front of the shared `tail`.
pub open spec fn cons_node(expr: ExprAST, tail: Rc<IroncamelLinkedList>) -> IroncamelLinkedList {
    IroncamelLinkedList { value: Box::new(expr), len: (tail.len + 1) as usize, next: Some(tail) }
}

/// What `tl` returns: the tail node of a list of two or more elements.
pub open spec fn tail_of(l: IroncamelLinkedList) -> Option<Rc<IroncamelLinkedList>> {
    if l.len > 1 {
        l.next
    } else {
        None
    }
}

/// Structural sharing: the tail of `cons(v, t)` is `t` itself, for every
/// non-empty `t`; and `cons` keeps a well-formed list well-formed, one
/// element longer.
pub proof fn law_cons_shares_its_tail(v: ExprAST, t: Rc<IroncamelLinkedList>)
    requires
        0 < t.len < usize::MAX,
    ensures
        tail_of(cons_node(v, t)) == Some(t),
        t.well_formed() ==> cons_node(v, t).well_formed() && cons_node(v, t).elements() == seq![v]
            + t.elements(),
{
}

/// The empty list.
pub open spec fn empty_list() -> IroncamelLinkedList {
    IroncamelLinkedList { value: Box::new(ExprAST::Error), len: 0, next: None }
}

/// The list that `list(v0, v1, ...)` builds: one node per value, the last
/// without a tail.
pub open spec fn list_of(vals: Seq<ExprAST>) -> IroncamelLinkedList
    decreases vals.len(),
{
    if vals.len() == 0 {
        empty_list()
    } else if vals.len() == 1 {
        IroncamelLinkedList { value: Box::new(vals[0]), len: 1, next: None }
    } else {
        IroncamelLinkedList {
            value: Box::new(vals[0]),
            len: vals.len() as usize,
            next: Some(Rc::new(list_of(vals.drop_first()))),
        }
    }
}

/// The built-in functions.
#[derive(PartialEq, Eq, Structural, Clone, Copy, Debug)]
pub enum BuiltinKind {
    Add,
    Sub,
    Mul,
    Eq,
    Lt,
    Gt,
    Le,
    Ge,
    List,
    Cons,
    Hd,
    Tl,
    IsEmpty,
    Atoi,
    Strtok,
}

/// The built-in function a name denotes, if any.
pub open spec fn builtin_kind(name: Seq<char>) -> Option<BuiltinKind> {
    if name == "+"@ {
        Some(BuiltinKind::Add)
    } else if name == "-"@ {
        Some(BuiltinKind::Sub)
    } else if name == "*"@ {
        Some(BuiltinKind::Mul)
    } else if name == "=="@ {
        Some(BuiltinKind::Eq)
    } else if name == "<"@ {
        Some(BuiltinKind::Lt)
    } else if name == ">"@ {
        Some(BuiltinKind::Gt)
    } else if name == "<="@ {
        Some(BuiltinKind::Le)
    } else if name == ">="@ {
        Some(BuiltinKind::Ge)
    } else if name == "list"@ {
        Some(BuiltinKind::List)
    } else if name == "cons"@ {
        Some(BuiltinKind::Cons)
    } else if name == "hd"@ {
        Some(BuiltinKind::Hd)
    } else if name == "tl"@ {
        Some(BuiltinKind::Tl)
    } else if name == "is_empty"@ {
        Some(BuiltinKind::IsEmpty)
    } else if name == "atoi"@ {
        Some(BuiltinKind::Atoi)
    } else if name == "strtok"@ {
        Some(BuiltinKind::Strtok)
    } else {
        None
    }
}

pub open spec fn is_builtin(name: Seq<char>) -> bool {
    builtin_kind(name) is Some
}

/// Looks a name up among the built-in functions.
pub fn builtin_kind_of(name: &String) -> (r: Option<BuiltinKind>)
    ensures
        r == builtin_kind(name@),
{
    if str_eq(name, "+") {
        Some(BuiltinKind::Add)
    } else if str_eq(name, "-") {
        Some(BuiltinKind::Sub)
    } else if str_eq(name, "*") {
        Some(BuiltinKind::Mul)
    } else if str_eq(name, "==") {
        Some(BuiltinKind::Eq)
    } else if str_eq(name, "<") {
        Some(BuiltinKind::Lt)
    } else if str_eq(name, ">") {
        Some(BuiltinKind::Gt)
    } else if str_eq(name, "<=") {
        Some(BuiltinKind::Le)
    } else if str_eq(name, ">=") {
        Some(BuiltinKind::Ge)
    } else if str_eq(name, "list") {
        Some(BuiltinKind::List)
    } else if str_eq(name, "cons") {
        Some(BuiltinKind::Cons)
    } else if str_eq(name, "hd") {
        Some(BuiltinKind::Hd)
    } else if str_eq(name, "tl") {
        Some(BuiltinKind::Tl)
    } else if str_eq(name, "is_empty") {
        Some(BuiltinKind::IsEmpty)
    } else if str_eq(name, "atoi") {
        Some(BuiltinKind::Atoi)
    } else if str_eq(name, "strtok") {
        Some(BuiltinKind::Strtok)
    } else {
        None
    }
}

/// The fragments of `s` between characters of `d`, empty ones dropped,
/// scanning from position `i` with the fragment `cur` open and `acc` done.
pub open spec fn split_from(
    s: Seq<char>,
    d: Seq<char>,
    i: int,
    cur: Seq<char>,
    acc: Seq<Seq<char>>,
) -> Seq<Seq<char>>
    decreases s.len() - i,
{
    if i >= s.len() {
        if cur.len() > 0 {
            acc.push(cur)
        } else {
            acc
        }
    } else if d.contains(s[i]) {
        split_from(s, d, i + 1, Seq::empty(), if cur.len() > 0 { acc.push(cur) } else { acc })
    } else {
        split_from(s, d, i + 1, cur.push(s[i]), acc)
    }
}

/// The maximal runs of characters of `s` that are not in `d`, in order.
pub open spec fn fragments(s: Seq<char>, d: Seq<char>) -> Seq<Seq<char>> {
    split_from(s, d, 0, Seq::empty(), Seq::empty())
}

pub open spec fn string_values(fs: Seq<Seq<char>>) -> Seq<ExprAST> {
    fs.map_values(|f: Seq<char>| ExprAST::StringLiteral(string_of(f)))
}

pub open spec fn arith_result(k: BuiltinKind, a: int, b: int) -> int {
    match k {
        BuiltinKind::Add => a + b,
        BuiltinKind::Sub => a - b,
        _ => a * b,
    }
}

pub open spec fn compare_result(k: BuiltinKind, a: int, b: int) -> bool {
    match k {
        BuiltinKind::Eq => a == b,
        BuiltinKind::Lt => a < b,
        BuiltinKind::Gt => a > b,
        BuiltinKind::Le => a <= b,
        _ => a >= b,
    }
}

/// What a built-in function returns on already evaluated arguments.
pub open spec fn apply_builtin(k: BuiltinKind, vals: Seq<ExprAST>) -> Result<ExprAST, EvalError> {
    match k {
        BuiltinKind::Add | BuiltinKind::Sub | BuiltinKind::Mul => if vals.len() != 2 {
            Err(EvalError::ArityMismatch)
        } else {
            match (vals[0], vals[1]) {
                (ExprAST::Int(a), ExprAST::Int(b)) => {
                    let v = arith_result(k, a as int, b as int);
                    if fits_i64(v) {
                        Ok(ExprAST::Int(v as i64))
                    } else {
                        Err(EvalError::Overflow)
                    }
                },
                _ => Err(EvalError::TypeMismatch),
            }
        },
        BuiltinKind::Eq | BuiltinKind::Lt | BuiltinKind::Gt | BuiltinKind::Le
        | BuiltinKind::Ge => if vals.len() != 2 {
            Err(EvalError::ArityMismatch)
        } else {
            match (vals[0], vals[1]) {
                (ExprAST::Int(a), ExprAST::Int(b)) => Ok(
                    ExprAST::Bool(compare_result(k, a as int, b as int)),
                ),
                _ => Err(EvalError::TypeMismatch),
            }
        },
        BuiltinKind::List => Ok(ExprAST::List(Rc::new(list_of(vals)))),
        BuiltinKind::Cons => if vals.len() != 2 {
            Err(EvalError::ArityMismatch)
        } else {
            match vals[1] {
                ExprAST::List(t) => if t.len == usize::MAX {
                    Err(EvalError::Overflow)
                } else {
                    Ok(
                        ExprAST::List(
                            Rc::new(
                                IroncamelLinkedList {
                                    value: Box::new(vals[0]),
                                    len: (t.len + 1) as usize,
                                    next: Some(t),
                                },
                            ),
                        ),
                    )
                },
                _ => Err(EvalError::TypeMismatch),
            }
        },
        BuiltinKind::Hd => if vals.len() != 1 {
            Err(EvalError::ArityMismatch)
        } else {
            match vals[0] {
                ExprAST::List(l) => if l.len == 0 {
                    Err(EvalError::EmptyList)
                } else {
                    Ok(flat_copy(*l.value))
                },
                _ => Err(EvalError::TypeMismatch),
            }
        },
        BuiltinKind::Tl => if vals.len() != 1 {
            Err(EvalError::ArityMismatch)
        } else {
            match vals[0] {
                ExprAST::List(l) => if l.len == 0 {
                    Err(EvalError::EmptyList)
                } else if l.len > 1 && l.next is Some {
                    Ok(ExprAST::List(l.next->0))
                } else {
                    Ok(ExprAST::List(Rc::new(empty_list())))
                },
                _ => Err(EvalError::TypeMismatch),
            }
        },
        BuiltinKind::IsEmpty => if vals.len() != 1 {
            Err(EvalError::ArityMismatch)
        } else {
            match vals[0] {
                ExprAST::List(l) => Ok(ExprAST::Bool(l.len == 0)),
                _ => Err(EvalError::TypeMismatch),
            }
        },
        BuiltinKind::Atoi => if vals.len() != 1 {
            Err(EvalError::ArityMismatch)
        } else {
            match vals[0] {
                ExprAST::StringLiteral(s) => if !is_numeral(char_codes(s@)) {
                    Err(EvalError::BadNumber)
                } else if !fits_i64(numeral_value(char_codes(s@))) {
                    Err(EvalError::Overflow)
                } else {
                    Ok(ExprAST::Int(numeral_value(char_codes(s@)) as i64))
                },
                _ => Err(EvalError::TypeMismatch),
            }
        },
        BuiltinKind::Strtok => if vals.len() != 2 {
            Err(EvalError::ArityMismatch)
        } else {
            match (vals[0], vals[1]) {
                (ExprAST::StringLiteral(s), ExprAST::StringLiteral(d)) => Ok(
                    ExprAST::List(Rc::new(list_of(string_values(fragments(s@, d@))))),
                ),
                _ => Err(EvalError::TypeMismatch),
            }
        },
    }
}

/// What calling the built-in named `name` returns; a name that is not a
/// built-in is undefined.
pub open spec fn builtin_result(name: String, vals: Seq<ExprAST>) -> Result<ExprAST, EvalError> {
    match builtin_kind(name@) {
        Some(k) => apply_builtin(k, vals),
        None => Err(EvalError::UndefinedName(name)),
    }
}

pub open spec fn digit_char(d: int) -> char {
    if d == 0 {
        '0'
    } else if d == 1 {
        '1'
    } else if d == 2 {
        '2'
    } else if d == 3 {
        '3'
    } else if d == 4 {
        '4'
    } else if d == 5 {
        '5'
    } else if d == 6 {
        '6'
    } else if d == 7 {
        '7'
    } else if d == 8 {
        '8'
    } else {
        '9'
    }
}

/// The decimal digits of a natural number.
pub open spec fn nat_text(n: nat) -> Seq<char>
    decreases n,
{
    if n < 10 {
        seq![digit_char(n as int)]
    } else {
        nat_text(n / 10) + seq![digit_char((n % 10) as int)]
    }
}

/// The decimal text of an integer, with a leading minus sign when negative.
pub open spec fn int_text(x: int) -> Seq<char> {
    if x < 0 {
        seq!['-'] + nat_text((-x) as nat)
    } else {
        nat_text(x as nat)
    }
}

/// How a value is written: an integer in decimal, a boolean as `true` or
/// `false`, a string as itself; other values cannot be written.
pub open spec fn value_text(v: ExprAST) -> Option<Seq<char>> {
    match v {
        ExprAST::Int(x) => Some(int_text(x as int)),
        ExprAST::Bool(b) => Some(if b { seq!['t', 'r', 'u', 'e'] } else { seq!['f', 'a', 'l', 's', 'e'] }),
        ExprAST::StringLiteral(s) => Some(s@),
        _ => None,
    }
}

/// Each element of a list written and followed by a space.
pub open spec fn list_text(l: IroncamelLinkedList) -> Option<Seq<char>>
    decreases l,
{
    if l.len == 0 {
        Some(Seq::empty())
    } else {
        match value_text(*l.value) {
            None => None,
            Some(head) => match l.next {
                None => Some(head + seq![' ']),
                Some(t) => match list_text(*t) {
                    None => None,
                    Some(rest) => Some(head + seq![' '] + rest),
                },
            },
        }
    }
}

/// The text that the write procedure `method` produces for a value:
/// `writeline` writes it and a newline, `writelist` writes each element of a
/// list followed by a space, then a newline.
pub open spec fn write_text(method: String, v: ExprAST) -> Result<Seq<char>, EvalError> {
    if method@ == "writeline"@ {
        match value_text(v) {
            Some(x) => Ok(x + seq!['\n']),
            None => Err(EvalError::TypeMismatch),
        }
    } else if method@ == "writelist"@ {
        match v {
            ExprAST::List(l) => match list_text(*l) {
                Some(x) => Ok(x + seq!['\n']),
                None => Err(EvalError::TypeMismatch),
            },
            _ => Err(EvalError::TypeMismatch),
        }
    } else {
        Err(EvalError::UnknownProcedure(method))
    }
}

fn digit_of(d: u64) -> (r: char)
    requires
        d < 10,
    ensures
        r == digit_char(d as int),
{
    match d {
        0 => '0',
        1 => '1',
        2 => '2',
        3 => '3',
        4 => '4',
        5 => '5',
        6 => '6',
        7 => '7',
        8 => '8',
        _ => '9',
    }
}

fn push_nat_text(n: u64, out: &mut Vec<char>)
    ensures
        final(out)@ == old(out)@ + nat_text(n as nat),
    decreases n,
{
    if n >= 10 {
        push_nat_text(n / 10, out);
    }
    out.push(digit_of(n % 10));
    proof {
        if n >= 10 {
            assert(final(out)@ =~= old(out)@ + nat_text(n as nat));
        } else {
            assert(final(out)@ =~= old(out)@ + nat_text(n as nat));
        }
    }
}

fn push_str(s: &str, out: &mut Vec<char>)
    ensures
        final(out)@ == old(out)@ + s@,
{
    let chars = chars_of(s);
    let ghost start = out@;
    let mut i: usize = 0;
    while i < chars.len()
        invariant
            chars@ == s@,
            i <= chars@.len(),
            out@ == start + chars@.subrange(0, i as int),
        decreases chars.len() - i,
    {
        out.push(chars[i]);
        i += 1;
        assert(out@ =~= start + chars@.subrange(0, i as int));
    }
    assert(chars@.subrange(0, i as int) =~= chars@);
}

/// Appends how a value is written; fails on a value that cannot be written.
fn push_value_text(v: &ExprAST, out: &mut Vec<char>) -> (r: bool)
    ensures
        r == value_text(*v) is Some,
        r ==> final(out)@ == old(out)@ + value_text(*v)->0,
{
    match v {
        ExprAST::Int(x) => {
            if *x < 0 {
                out.push('-');
                let m: u64 = (0 - (*x as i128)) as u64;
                push_nat_text(m, out);
                proof {
                    assert(final(out)@ =~= old(out)@ + int_text(*x as int));
                }
            } else {
                push_nat_text(*x as u64, out);
            }
            true
        },
        ExprAST::Bool(b) => {
            if *b {
                out.push('t');
                out.push('r');
                out.push('u');
                out.push('e');
            } else {
                out.push('f');
                out.push('a');
                out.push('l');
                out.push('s');
                out.push('e');
            }
            proof {
                assert(final(out)@ =~= old(out)@ + value_text(*v)->0);
            }
            true
        },
        ExprAST::StringLiteral(s) => {
            push_str(s.as_str(), out);
            true
        },
        _ => false,
    }
}

fn push_list_text(l: &IroncamelLinkedList, out: &mut Vec<char>) -> (r: bool)
    ensures
        r == list_text(*l) is Some,
        r ==> final(out)@ == old(out)@ + list_text(*l)->0,
    decreases l,
{
    if l.len == 0 {
        assert(final(out)@ =~= old(out)@ + Seq::<char>::empty());
        return true;
    }
    if !push_value_text(&l.value, out) {
        return false;
    }
    out.push(' ');
    match &l.next {
        None => {
            proof {
                assert(final(out)@ =~= old(out)@ + list_text(*l)->0);
            }
            true
        },
        Some(t) => {
            let ghost mid = out@;
            let ok = push_list_text(&**t, out);
            proof {
                if ok {
                    assert(final(out)@ =~= old(out)@ + list_text(*l)->0);
                }
            }
            ok
        },
    }
}

/// The text that the write procedure `method_name` produces for `data`;
/// writing it to its handle is left to the caller.
pub fn perform_write(method_name: &String, data: &ExprAST) -> (r: Result<String, EvalError>)
    ensures
        match r {
            Ok(text) => write_text(*method_name, *data) == Ok::<Seq<char>, EvalError>(text@),
            Err(e) => write_text(*method_name, *data) == Err::<Seq<char>, EvalError>(e),
        },
{
    let mut out: Vec<char> = Vec::new();
    if str_eq(method_name, "writeline") {
        if !push_value_text(data, &mut out) {
            return Err(EvalError::TypeMismatch);
        }
    } else if str_eq(method_name, "writelist") {
        match data {
            ExprAST::List(l) => {
                if !push_list_text(&**l, &mut out) {
                    return Err(EvalError::TypeMismatch);
                }
            },
            _ => {
                return Err(EvalError::TypeMismatch);
            },
        }
    } else {
        return Err(EvalError::UnknownProcedure(method_name.clone()));
    }
    let ghost body = out@;
    proof {
        if method_name@ == "writeline"@ {
            assert(body =~= value_text(*data)->0);
        } else {
            assert(body =~= list_text(*data->List_0)->0);
        }
    }
    out.push('\n');
    proof {
        assert(out@ =~= body + seq!['\n']);
    }
    Ok(string_from_chars(&out))
}

/// A list value holding no element.
pub fn build_empty_list_expr() -> (r: ExprAST)
    ensures
        r == ExprAST::List(Rc::new(empty_list())),
{
    ExprAST::List(Rc::new(IroncamelLinkedList::build_empty_list()))
}

/// The integer an expression holds, if it is one.
fn unpack_num(e: &ExprAST) -> (r: Option<i64>)
    ensures
        r == (match *e {
            ExprAST::Int(x) => Some(x),
            _ => None,
        }),
{
    match e {
        ExprAST::Int(x) => Some(*x),
        _ => None,
    }
}

fn arithmetic_calc(op: BuiltinKind, p: &Vec<ExprAST>) -> (r: Result<ExprAST, EvalError>)
    requires
        op == BuiltinKind::Add || op == BuiltinKind::Sub || op == BuiltinKind::Mul,
    ensures
        r == apply_builtin(op, p@),
{
    if p.len() != 2 {
        return Err(EvalError::ArityMismatch);
    }
    match (unpack_num(&p[0]), unpack_num(&p[1])) {
        (Some(a), Some(b)) => {
            let x = a as i128;
            let y = b as i128;
            let v: i128 = match op {
                BuiltinKind::Add => x + y,
                BuiltinKind::Sub => x - y,
                _ => {
                    assert(-0x8000_0000_0000_0000 * 0x8000_0000_0000_0000 <= x * y
                        <= 0x8000_0000_0000_0000 * 0x8000_0000_0000_0000) by (nonlinear_arith)
                        requires
                            -0x8000_0000_0000_0000 <= x <= 0x7fff_ffff_ffff_ffff,
                            -0x8000_0000_0000_0000 <= y <= 0x7fff_ffff_ffff_ffff,
                    ;
                    x * y
                },
            };
            if v >= i64::MIN as i128 && v <= i64::MAX as i128 {
                Ok(ExprAST::Int(v as i64))
            } else {
                Err(EvalError::Overflow)
            }
        },
        _ => Err(EvalError::TypeMismatch),
    }
}

fn arithmetic_cmp(op: BuiltinKind, p: &Vec<ExprAST>) -> (r: Result<ExprAST, EvalError>)
    requires
        op == BuiltinKind::Eq || op == BuiltinKind::Lt || op == BuiltinKind::Gt || op
            == BuiltinKind::Le || op == BuiltinKind::Ge,
    ensures
        r == apply_builtin(op, p@),
{
    if p.len() != 2 {
        return Err(EvalError::ArityMismatch);
    }
    match (unpack_num(&p[0]), unpack_num(&p[1])) {
        (Some(a), Some(b)) => {
            let v = match op {
                BuiltinKind::Eq => a == b,
                BuiltinKind::Lt => a < b,
                BuiltinKind::Gt => a > b,
                BuiltinKind::Le => a <= b,
                _ => a >= b,
            };
            Ok(ExprAST::Bool(v))
        },
        _ => Err(EvalError::TypeMismatch),
    }
}

/// Whether `c` occurs in `v`.
fn contains_char(v: &Vec<char>, c: char) -> (r: bool)
    ensures
        r == v@.contains(c),
{
    let mut i: usize = 0;
    while i < v.len()
        invariant
            i <= v@.len(),
            forall|k: int| 0 <= k < i ==> v@[k] != c,
        decreases v.len() - i,
    {
        if v[i] == c {
            return true;
        }
        i += 1;
    }
    false
}

/// The fragments of `s` between characters of `d`, as string values.
fn split_fragments(s: &String, d: &String) -> (r: Vec<ExprAST>)
    ensures
        r@ == string_values(fragments(s@, d@)),
{
    let sc = chars_of(s.as_str());
    let dc = chars_of(d.as_str());
    let mut out: Vec<ExprAST> = Vec::new();
    let mut cur: Vec<char> = Vec::new();
    let ghost mut acc: Seq<Seq<char>> = Seq::empty();
    let mut i: usize = 0;
    assert(out@ =~= string_values(acc));
    while i < sc.len()
        invariant
            sc@ == s@,
            dc@ == d@,
            i <= sc@.len(),
            fragments(s@, d@) == split_from(s@, d@, i as int, cur@, acc),
            out@ == string_values(acc),
        decreases sc.len() - i,
    {
        let c = sc[i];
        if contains_char(&dc, c) {
            if cur.len() > 0 {
                let f = string_from_chars(&cur);
                out.push(ExprAST::StringLiteral(f));
                proof {
                    assert(string_values(acc.push(cur@)) =~= string_values(acc).push(
                        ExprAST::StringLiteral(string_of(cur@)),
                    ));
                    acc = acc.push(cur@);
                }
            }
            cur = Vec::new();
        } else {
            cur.push(c);
        }
        i += 1;
    }
    if cur.len() > 0 {
        let f = string_from_chars(&cur);
        out.push(ExprAST::StringLiteral(f));
        proof {
            assert(string_values(acc.push(cur@)) =~= string_values(acc).push(
                ExprAST::StringLiteral(string_of(cur@)),
            ));
            acc = acc.push(cur@);
        }
    }
    out
}

/// Whether a text is a numeral: an optional minus sign, then digits.
fn is_numeral_text(c: &Vec<char>) -> (r: bool)
    ensures
        r == is_numeral(char_codes(c@)),
{
    let ghost d = char_codes(c@);
    let start: usize = if c.len() > 0 && numeral_code(c[0]) == 45 {
        1
    } else {
        0
    };
    if start >= c.len() {
        return false;
    }
    let mut i: usize = start;
    while i < c.len()
        invariant
            start <= i <= c@.len(),
            d == char_codes(c@),
            start <= 1,
            start == 1 <==> (d.len() > 0 && d[0] == 45),
            forall|k: int| start <= k < i ==> is_digit_code(d[k]),
        decreases c.len() - i,
    {
        let code = numeral_code(c[i]);
        if !(48 <= code && code <= 57) {
            proof {
                assert(d[i as int] == code_of(c@[i as int]));
                assert(!is_digit_code(d[i as int]));
                assert(d[0] == code_of(c@[0]));
                if start == 1 {
                    assert(d.drop_first()[i - 1] == d[i as int]);
                    assert(!all_digits(d.drop_first()));
                } else {
                    assert(d[0] != 45);
                    assert(!all_digits(d));
                }
                assert(!is_numeral(d));
            }
            return false;
        }
        i += 1;
    }
    proof {
        if start == 1 {
            assert forall|k: int| 0 <= k < d.drop_first().len() implies is_digit_code(
                d.drop_first()[k],
            ) by {
                assert(d.drop_first()[k] == d[k + 1]);
            }
        }
    }
    true
}

fn builtin_atoi(s: &String) -> (r: Result<ExprAST, EvalError>)
    ensures
        r == apply_builtin(BuiltinKind::Atoi, seq![ExprAST::StringLiteral(*s)]),
{
    let chars = chars_of(s.as_str());
    if !is_numeral_text(&chars) {
        return Err(EvalError::BadNumber);
    }
    proof {
        let d = char_codes(chars@);
        assert forall|i: int| 0 <= i < chars@.len() implies code_of(#[trigger] chars@[i]) >= 0 by {
            assert(d[i] == code_of(chars@[i]));
            if d[0] == 45 && i > 0 {
                assert(d.drop_first()[i - 1] == d[i]);
            }
        }
    }
    let bytes = numeral_bytes(&chars);
    match parse_numeral(&bytes) {
        Some(v) => Ok(ExprAST::Int(v)),
        None => Err(EvalError::Overflow),
    }
}

/// Calls the built-in named `func_name` on evaluated arguments.
pub fn call_builtin_function(func_name: &String, params: Vec<ExprAST>) -> (r: Result<
    ExprAST,
    EvalError,
>)
    ensures
        r == builtin_result(*func_name, params@),
{
    let kind = match builtin_kind_of(func_name) {
        Some(k) => k,
        None => {
            return Err(EvalError::UndefinedName(func_name.clone()));
        },
    };
    match kind {
        BuiltinKind::Add | BuiltinKind::Sub | BuiltinKind::Mul => arithmetic_calc(kind, &params),
        BuiltinKind::Eq | BuiltinKind::Lt | BuiltinKind::Gt | BuiltinKind::Le
        | BuiltinKind::Ge => arithmetic_cmp(kind, &params),
        BuiltinKind::List => Ok(ExprAST::List(Rc::new(IroncamelLinkedList::build_list(params)))),
        BuiltinKind::Cons => {
            if params.len() != 2 {
                return Err(EvalError::ArityMismatch);
            }
            let tail = match &params[1] {
                ExprAST::List(t) => Rc::clone(t),
                _ => {
                    return Err(EvalError::TypeMismatch);
                },
            };
            if tail.len == usize::MAX {
                return Err(EvalError::Overflow);
            }
            let mut params = params;
            let head = params.remove(0);
            Ok(ExprAST::List(Rc::new(IroncamelLinkedList::cons(head, &tail))))
        },
        BuiltinKind::Hd => {
            if params.len() != 1 {
                return Err(EvalError::ArityMismatch);
            }
            match &params[0] {
                ExprAST::List(l) => if l.len == 0 {
                    Err(EvalError::EmptyList)
                } else {
                    Ok(l.hd().copy_flat())
                },
                _ => Err(EvalError::TypeMismatch),
            }
        },
        BuiltinKind::Tl => {
            if params.len() != 1 {
                return Err(EvalError::ArityMismatch);
            }
            match &params[0] {
                ExprAST::List(l) => if l.len == 0 {
                    Err(EvalError::EmptyList)
                } else {
                    match l.tl() {
                        Some(t) => Ok(ExprAST::List(t)),
                        None => Ok(build_empty_list_expr()),
                    }
                },
                _ => Err(EvalError::TypeMismatch),
            }
        },
        BuiltinKind::IsEmpty => {
            if params.len() != 1 {
                return Err(EvalError::ArityMismatch);
            }
            match &params[0] {
                ExprAST::List(l) => Ok(ExprAST::Bool(l.len == 0)),
                _ => Err(EvalError::TypeMismatch),
            }
        },
        BuiltinKind::Atoi => {
            if params.len() != 1 {
                return Err(EvalError::ArityMismatch);
            }
            match &params[0] {
                ExprAST::StringLiteral(s) => {
                    let r = builtin_atoi(s);
                    proof {
                        assert(params@ =~= seq![ExprAST::StringLiteral(*s)]);
                    }
                    r
                },
                _ => Err(EvalError::TypeMismatch),
            }
        },
        BuiltinKind::Strtok => {
            if params.len() != 2 {
                return Err(EvalError::ArityMismatch);
            }
            match (&params[0], &params[1]) {
                (ExprAST::StringLiteral(s), ExprAST::StringLiteral(d)) => {
                    let parts = split_fragments(s, d);
                    Ok(ExprAST::List(Rc::new(IroncamelLinkedList::build_list(parts))))
                },
                _ => Err(EvalError::TypeMismatch),
            }
        },
    }
}

/// The cached length of a well-formed list is its number of elements; every
/// list that `build`, `cons` and `tl` produce from well-formed lists is
/// well-formed.
pub proof fn law_cached_length_counts_elements(l: &IroncamelLinkedList)
    requires
        l.well_formed(),
    ensures
        l.len == l.elements().len(),
    decreases l,
{
    match l.next {
        Some(t) => {
            law_cached_length_counts_elements(&*t);
        },
        None => {},
    }
}

} // verus!
