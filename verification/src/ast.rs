use vstd::prelude::*;
use vstd::string::StringExecFns;

verus! {

/// The four binary arithmetic operators of the language.
#[derive(Clone, Copy, PartialEq, Eq, Structural, Debug)]
pub enum Operation {
    Plus,
    Minus,
    Multiply,
    Divide,
}

/// The built-in functions that the prelude installs.  The evaluator treats
/// them opaquely as invocation targets; their behaviour lives in the
/// `prelude` module.
#[derive(Clone, Copy, PartialEq, Eq, Structural, Debug)]
pub enum Primitive {
    Println,
    Equals,
}

/// The abstract syntax tree, which doubles as the runtime value
/// representation.  `PrimFunction` and `DefFunction` never appear in
/// source-level syntax; they are produced only as evaluation results.
///
/// A `DefFunction` closure deliberately carries no captured environment:
/// its body is evaluated in a fresh frame of the call-site environment, so
/// a free name in the body resolves where the function is called, not
/// where it was defined.  Lexical capture would change observable program
/// behaviour and is left as a documented design option.
#[derive(Debug)]
pub enum Ast {
    Integer(i64),
    Symbol(String),
    Apply { func: Box<Ast>, args: Vec<Ast> },
    Nil,
    Func { name: String, params: Vec<String>, body: Box<Ast> },
    PrimFunction(Primitive),
    DefFunction { params: Vec<String>, body: Box<Ast> },
    Str(String),
    Boolean(bool),
    Begin(Vec<Ast>),
    If(Box<Ast>, Box<Ast>, Option<Box<Ast>>),
    BinOp { operation: Operation, lhs: Box<Ast>, rhs: Box<Ast> },
}

/// The mathematical model of a syntax tree: strings are character
/// sequences and vectors are sequences.  All contracts in this crate are
/// stated over this model.
pub enum AstV {
    Integer(i64),
    Symbol(Seq<char>),
    Apply { func: Box<AstV>, args: Seq<AstV> },
    Nil,
    Func { name: Seq<char>, params: Seq<Seq<char>>, body: Box<AstV> },
    PrimFunction(Primitive),
    DefFunction { params: Seq<Seq<char>>, body: Box<AstV> },
    Str(Seq<char>),
    Boolean(bool),
    Begin(Seq<AstV>),
    If(Box<AstV>, Box<AstV>, Option<Box<AstV>>),
    BinOp { operation: Operation, lhs: Box<AstV>, rhs: Box<AstV> },
}

/// The model of a list of parameter names.
pub open spec fn strs_view(s: Seq<String>) -> Seq<Seq<char>> {
    s.map_values(|x: String| x@)
}

/// The model of a syntax tree.
pub open spec fn ast_view(a: Ast) -> AstV
    decreases a,
{
    match a {
        Ast::Integer(i) => AstV::Integer(i),
        Ast::Symbol(s) => AstV::Symbol(s@),
        Ast::Apply { func, args } => AstV::Apply {
            func: Box::new(ast_view(*func)),
            args: asts_view(args@),
        },
        Ast::Nil => AstV::Nil,
        Ast::Func { name, params, body } => AstV::Func {
            name: name@,
            params: strs_view(params@),
            body: Box::new(ast_view(*body)),
        },
        Ast::PrimFunction(p) => AstV::PrimFunction(p),
        Ast::DefFunction { params, body } => AstV::DefFunction {
            params: strs_view(params@),
            body: Box::new(ast_view(*body)),
        },
        Ast::Str(s) => AstV::Str(s@),
        Ast::Boolean(b) => AstV::Boolean(b),
        Ast::Begin(items) => AstV::Begin(asts_view(items@)),
        Ast::If(pred, conseq, alt) => AstV::If(
            Box::new(ast_view(*pred)),
            Box::new(ast_view(*conseq)),
            match alt {
                Some(a) => Some(Box::new(ast_view(*a))),
                None => None,
            },
        ),
        Ast::BinOp { operation, lhs, rhs } => AstV::BinOp {
            operation,
            lhs: Box::new(ast_view(*lhs)),
            rhs: Box::new(ast_view(*rhs)),
        },
    }
}

/// The model of a list of syntax trees.
pub open spec fn asts_view(s: Seq<Ast>) -> Seq<AstV>
    decreases s,
{
    if s.len() == 0 {
        Seq::empty()
    } else {
        asts_view(s.drop_last()).push(ast_view(s.last()))
    }
}

impl View for Ast {
    type V = AstV;

    open spec fn view(&self) -> AstV {
        ast_view(*self)
    }
}

/// `asts_view` is pointwise `ast_view`.
pub proof fn lemma_asts_view_index(s: Seq<Ast>)
    ensures
        asts_view(s).len() == s.len(),
        forall|i: int| 0 <= i < s.len() ==> asts_view(s)[i] == ast_view(#[trigger] s[i]),
    decreases s.len(),
{
    if s.len() > 0 {
        lemma_asts_view_index(s.drop_last());
        assert forall|i: int| 0 <= i < s.len() implies asts_view(s)[i] == ast_view(#[trigger] s[i]) by {
            if i < s.len() - 1 {
                assert(s.drop_last()[i] == s[i]);
                assert(asts_view(s)[i] == asts_view(s.drop_last())[i]);
            } else {
                assert(s[i] == s.last());
            }
        }
    }
}

/// Clones every tree in a vector, preserving the model of the list.
fn clone_asts(v: &Vec<Ast>) -> (r: Vec<Ast>)
    ensures
        asts_view(r@) == asts_view(v@),
    decreases v@,
{
    let mut r: Vec<Ast> = Vec::new();
    let mut i: usize = 0;
    while i < v.len()
        invariant
            i <= v@.len(),
            r@.len() == i,
            forall|j: int| 0 <= j < i ==> ast_view(r@[j]) == ast_view(#[trigger] v@[j]),
        decreases v@.len() - i,
    {
        let a = v[i].clone();
        r.push(a);
        i = i + 1;
    }
    proof {
        lemma_asts_view_index(r@);
        lemma_asts_view_index(v@);
        assert forall|j: int| 0 <= j < v@.len() implies asts_view(r@)[j] == asts_view(v@)[j] by {
            assert(ast_view(r@[j]) == ast_view(v@[j]));
        }
        assert(asts_view(r@) =~= asts_view(v@));
    }
    r
}

/// Clones a vector of names, preserving its value.
fn clone_strs(v: &Vec<String>) -> (r: Vec<String>)
    ensures
        r@ == v@,
{
    let mut r: Vec<String> = Vec::new();
    let mut i: usize = 0;
    while i < v.len()
        invariant
            i <= v@.len(),
            r@.len() == i,
            forall|j: int| 0 <= j < i ==> r@[j] == v@[j],
        decreases v@.len() - i,
    {
        let s = v[i].clone();
        r.push(s);
        i = i + 1;
    }
    proof {
        assert(r@ =~= v@);
    }
    r
}

impl Clone for Ast {
    /// A deep copy whose model equals the model of the original.
    fn clone(&self) -> (r: Self)
        ensures
            r@ == self@,
        decreases *self,
    {
        match self {
            Ast::Integer(i) => Ast::Integer(*i),
            Ast::Symbol(s) => Ast::Symbol(s.clone()),
            Ast::Apply { func, args } => Ast::Apply {
                func: Box::new((&**func).clone()),
                args: clone_asts(args),
            },
            Ast::Nil => Ast::Nil,
            Ast::Func { name, params, body } => Ast::Func {
                name: name.clone(),
                params: clone_strs(params),
                body: Box::new((&**body).clone()),
            },
            Ast::PrimFunction(p) => Ast::PrimFunction(*p),
            Ast::DefFunction { params, body } => Ast::DefFunction {
                params: clone_strs(params),
                body: Box::new((&**body).clone()),
            },
            Ast::Str(s) => Ast::Str(s.clone()),
            Ast::Boolean(b) => Ast::Boolean(*b),
            Ast::Begin(items) => Ast::Begin(clone_asts(items)),
            Ast::If(pred, conseq, alt) => Ast::If(
                Box::new((&**pred).clone()),
                Box::new((&**conseq).clone()),
                match alt {
                    Some(a) => Some(Box::new((&**a).clone())),
                    None => None,
                },
            ),
            Ast::BinOp { operation, lhs, rhs } => Ast::BinOp {
                operation: *operation,
                lhs: Box::new((&**lhs).clone()),
                rhs: Box::new((&**rhs).clone()),
            },
        }
    }
}

/// The source spelling of an operator.
pub open spec fn op_text(op: Operation) -> Seq<char> {
    match op {
        Operation::Plus => "+"@,
        Operation::Minus => "-"@,
        Operation::Multiply => "*"@,
        Operation::Divide => "/"@,
    }
}

/// One decimal digit.
pub open spec fn digit_seq(d: nat) -> Seq<char> {
    if d == 0 {
        "0"@
    } else if d == 1 {
        "1"@
    } else if d == 2 {
        "2"@
    } else if d == 3 {
        "3"@
    } else if d == 4 {
        "4"@
    } else if d == 5 {
        "5"@
    } else if d == 6 {
        "6"@
    } else if d == 7 {
        "7"@
    } else if d == 8 {
        "8"@
    } else {
        "9"@
    }
}

/// The decimal digits of a natural number, most significant first.
pub open spec fn dec_digits(n: nat) -> Seq<char>
    decreases n,
{
    if n < 10 {
        digit_seq(n)
    } else {
        dec_digits(n / 10) + digit_seq(n % 10)
    }
}

/// The decimal rendering of an integer.
pub open spec fn int_text(i: int) -> Seq<char> {
    if i < 0 {
        "-"@ + dec_digits((i * -1) as nat)
    } else {
        dec_digits(i as nat)
    }
}

/// The parameter list joined with single spaces.
pub open spec fn join_names(params: Seq<Seq<char>>) -> Seq<char>
    decreases params.len(),
{
    if params.len() == 0 {
        Seq::empty()
    } else if params.len() == 1 {
        params[0]
    } else {
        join_names(params.drop_last()) + " "@ + params.last()
    }
}

/// The canonical textual rendering of a tree, used for diagnostics and
/// echoing results: integers in decimal, strings quoted, booleans as
/// `true`/`false`, the empty value as `()`, applications and the other
/// compound forms parenthesised, and function values as `<func>`.
pub open spec fn render(node: AstV) -> Seq<char>
    decreases node,
{
    match node {
        AstV::Integer(i) => int_text(i as int),
        AstV::Symbol(s) => s,
        AstV::Apply { func, args } => "("@ + render(*func) + render_spaced(args) + ")"@,
        AstV::Nil => "()"@,
        AstV::Func { name, params, body } => "(func "@ + name + " ("@ + join_names(params) + ") "@
            + render(*body) + ")"@,
        AstV::PrimFunction(_) => "<func>"@,
        AstV::DefFunction { .. } => "<func>"@,
        AstV::Str(s) => "\""@ + s + "\""@,
        AstV::Boolean(b) => if b {
            "true"@
        } else {
            "false"@
        },
        AstV::Begin(items) => "(begin"@ + render_spaced(items) + ")"@,
        AstV::If(pred, conseq, alt) => match alt {
            Some(a) => "(if "@ + render(*pred) + " "@ + render(*conseq) + " "@ + render(*a)
                + ")"@,
            None => "(if "@ + render(*pred) + " "@ + render(*conseq) + ")"@,
        },
        AstV::BinOp { operation, lhs, rhs } => "("@ + op_text(operation) + " "@ + render(*lhs)
            + " "@ + render(*rhs) + ")"@,
    }
}

/// Each element rendered with one leading space.
pub open spec fn render_spaced(items: Seq<AstV>) -> Seq<char>
    decreases items,
{
    if items.len() == 0 {
        Seq::empty()
    } else {
        render_spaced(items.drop_last()) + " "@ + render(items.last())
    }
}

impl Operation {
    /// The operator's source spelling.
    pub fn to_text(&self) -> (r: String)
        ensures
            r@ == op_text(*self),
    {
        match self {
            Operation::Plus => "+".to_owned(),
            Operation::Minus => "-".to_owned(),
            Operation::Multiply => "*".to_owned(),
            Operation::Divide => "/".to_owned(),
        }
    }
}

/// One decimal digit as text.
fn digit_str(d: u64) -> (r: &'static str)
    requires
        d < 10,
    ensures
        r@ == digit_seq(d as nat),
{
    if d == 0 {
        "0"
    } else if d == 1 {
        "1"
    } else if d == 2 {
        "2"
    } else if d == 3 {
        "3"
    } else if d == 4 {
        "4"
    } else if d == 5 {
        "5"
    } else if d == 6 {
        "6"
    } else if d == 7 {
        "7"
    } else if d == 8 {
        "8"
    } else {
        "9"
    }
}

/// The decimal digits of a natural number.
fn dec_text(n: u64) -> (r: String)
    ensures
        r@ == dec_digits(n as nat),
    decreases n,
{
    if n < 10 {
        digit_str(n).to_owned()
    } else {
        let mut s = dec_text(n / 10);
        s.append(digit_str(n % 10));
        s
    }
}

/// The decimal rendering of a 64-bit integer.
fn int_to_text(i: i64) -> (r: String)
    ensures
        r@ == int_text(i as int),
{
    if i >= 0 {
        dec_text(i as u64)
    } else {
        let m: u64 = if i == i64::MIN {
            9223372036854775808u64
        } else {
            (-i) as u64
        };
        proof {
            assert(m as nat == (i as int * -1) as nat);
        }
        let mut s = "-".to_owned();
        let rest = dec_text(m);
        s.append(rest.as_str());
        s
    }
}

/// The parameter list joined with single spaces.
fn join_params(params: &Vec<String>) -> (r: String)
    ensures
        r@ == join_names(strs_view(params@)),
{
    let ghost names = strs_view(params@);
    let mut s = String::new();
    let mut i: usize = 0;
    while i < params.len()
        invariant
            i <= params@.len(),
            names == strs_view(params@),
            names.len() == params@.len(),
            s@ == join_names(names.take(i as int)),
        decreases params@.len() - i,
    {
        if i > 0 {
            s.append(" ");
        }
        s.append(params[i].as_str());
        proof {
            assert(names.take(i + 1).drop_last() =~= names.take(i as int));
            assert(names.take(i + 1).last() == names[i as int]);
            assert(names[i as int] == params@[i as int]@);
            if i == 0 {
                assert(s@ =~= join_names(names.take(1)));
            } else {
                assert(s@ =~= join_names(names.take(i + 1)));
            }
        }
        i = i + 1;
    }
    proof {
        assert(names.take(params@.len() as int) =~= names);
    }
    s
}

/// Each element rendered with one leading space.
fn render_items(items: &Vec<Ast>) -> (r: String)
    ensures
        r@ == render_spaced(asts_view(items@)),
    decreases items@,
{
    let ghost models = asts_view(items@);
    proof {
        lemma_asts_view_index(items@);
    }
    let mut s = String::new();
    let mut i: usize = 0;
    while i < items.len()
        invariant
            i <= items@.len(),
            models == asts_view(items@),
            models.len() == items@.len(),
            forall|j: int| 0 <= j < items@.len() ==> models[j] == ast_view(#[trigger] items@[j]),
            s@ == render_spaced(models.take(i as int)),
        decreases items@.len() - i,
    {
        proof {
            assert(decreases_to!(items@ => items@[i as int]));
        }
        let piece = items[i].to_text();
        s.append(" ");
        s.append(piece.as_str());
        proof {
            assert(models.take(i + 1).drop_last() =~= models.take(i as int));
            assert(models.take(i + 1).last() == models[i as int]);
            assert(s@ =~= render_spaced(models.take(i + 1)));
        }
        i = i + 1;
    }
    proof {
        assert(models.take(items@.len() as int) =~= models);
    }
    s
}

impl Ast {
    /// The canonical textual rendering of this tree.
    pub fn to_text(&self) -> (r: String)
        ensures
            r@ == render(self@),
        decreases *self,
    {
        match self {
            Ast::Integer(i) => int_to_text(*i),
            Ast::Symbol(s) => s.clone(),
            Ast::Apply { func, args } => {
                let mut s = "(".to_owned();
                let f = (&**func).to_text();
                s.append(f.as_str());
                let rest = render_items(args);
                s.append(rest.as_str());
                s.append(")");
                proof {
                    assert(s@ =~= render(self@));
                }
                s
            },
            Ast::Nil => "()".to_owned(),
            Ast::Func { name, params, body } => {
                let mut s = "(func ".to_owned();
                s.append(name.as_str());
                s.append(" (");
                let ps = join_params(params);
                s.append(ps.as_str());
                s.append(") ");
                let b = (&**body).to_text();
                s.append(b.as_str());
                s.append(")");
                proof {
                    assert(s@ =~= render(self@));
                }
                s
            },
            Ast::PrimFunction(_) => "<func>".to_owned(),
            Ast::DefFunction { .. } => "<func>".to_owned(),
            Ast::Str(text) => {
                let mut s = "\"".to_owned();
                s.append(text.as_str());
                s.append("\"");
                proof {
                    assert(s@ =~= render(self@));
                }
                s
            },
            Ast::Boolean(b) => {
                if *b {
                    "true".to_owned()
                } else {
                    "false".to_owned()
                }
            },
            Ast::Begin(items) => {
                let mut s = "(begin".to_owned();
                let rest = render_items(items);
                s.append(rest.as_str());
                s.append(")");
                proof {
                    assert(s@ =~= render(self@));
                }
                s
            },
            Ast::If(pred, conseq, alt) => {
                let mut s = "(if ".to_owned();
                let p = (&**pred).to_text();
                s.append(p.as_str());
                s.append(" ");
                let c = (&**conseq).to_text();
                s.append(c.as_str());
                match alt {
                    Some(a) => {
                        s.append(" ");
                        let at = (&**a).to_text();
                        s.append(at.as_str());
                        s.append(")");
                    },
                    None => {
                        s.append(")");
                    },
                }
                proof {
                    assert(s@ =~= render(self@));
                }
                s
            },
            Ast::BinOp { operation, lhs, rhs } => {
                let mut s = "(".to_owned();
                let o = operation.to_text();
                s.append(o.as_str());
                s.append(" ");
                let l = (&**lhs).to_text();
                s.append(l.as_str());
                s.append(" ");
                let rt = (&**rhs).to_text();
                s.append(rt.as_str());
                s.append(")");
                proof {
                    assert(s@ =~= render(self@));
                }
                s
            },
        }
    }

    /// Wraps a name in a symbol-reference node.
    pub fn make_symbol(string: String) -> (r: Box<Ast>)
        ensures
            (*r)@ == AstV::Symbol(string@),
    {
        Box::new(Ast::Symbol(string))
    }

    /// The strict truthiness test used by `If`: only the boolean value
    /// `true` counts as true; every other value is false.
    pub fn is_true(&self) -> (r: bool)
        ensures
            r == (self@ == AstV::Boolean(true)),
    {
        matches!(self, Ast::Boolean(true))
    }
}

} // verus!
