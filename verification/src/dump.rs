//! Prints statements back as Python source.
use vstd::prelude::*;
use crate::ast::{
    no_expr, strings_view, views, BinaryOperator, BoolOperator, CompareOperator, Expr, ExprV,
    Number, NumberV, Statement, StmtV, UnaryOperator,
};
use crate::text::{concat, concat_strings, push_char, string_of};

verus! {

/// The parts joined by `sep`.
pub open spec fn join(parts: Seq<Seq<char>>, sep: Seq<char>) -> Seq<char>
    decreases parts.len(),
{
    if parts.len() == 0 {
        seq![]
    } else if parts.len() == 1 {
        parts[0]
    } else {
        join(parts.drop_last(), sep) + sep + parts.last()
    }
}

/// `s` with every newline followed by four spaces.
pub open spec fn expand_lines(s: Seq<char>) -> Seq<char>
    decreases s.len(),
{
    if s.len() == 0 {
        seq![]
    } else if s.last() == '\n' {
        expand_lines(s.drop_last()) + "\n    "@
    } else {
        expand_lines(s.drop_last()).push(s.last())
    }
}

/// Each line of `code` (split at `'\n'`) with four spaces before it and a newline after it.
pub open spec fn indented(code: Seq<char>) -> Seq<char> {
    "    "@ + expand_lines(code) + "\n"@
}

pub open spec fn compare_symbol(op: CompareOperator) -> Seq<char> {
    match op {
        CompareOperator::Less => "<"@,
        CompareOperator::LessOrEqual => "<="@,
        CompareOperator::Greater => ">"@,
        CompareOperator::GreaterOrEqual => ">="@,
        CompareOperator::Equal => "=="@,
        CompareOperator::NotEqual => "!="@,
        CompareOperator::NotIn => "not in"@,
        CompareOperator::In => "in"@,
    }
}

pub open spec fn binary_symbol(op: BinaryOperator) -> Seq<char> {
    match op {
        BinaryOperator::Add => "+"@,
        BinaryOperator::Sub => "-"@,
        BinaryOperator::Mul => "*"@,
        BinaryOperator::Div => "/"@,
        BinaryOperator::Mod => "%"@,
        BinaryOperator::FloorDiv => "//"@,
        BinaryOperator::Pow => "**"@,
        BinaryOperator::BitAnd => "&"@,
        BinaryOperator::LeftShift => "<<"@,
        BinaryOperator::RightShift => ">>"@,
    }
}

pub open spec fn unary_symbol(op: UnaryOperator) -> Seq<char> {
    match op {
        UnaryOperator::Add => "+"@,
        UnaryOperator::Sub => "-"@,
        UnaryOperator::Not => "not "@,
    }
}

/// The Python source of an expression.
pub open spec fn py_expr(e: ExprV) -> Seq<char>
    decreases e,
{
    match e {
        ExprV::CallFunction(name, args) => name + "("@ + join(py_list(args), ", "@) + ")"@,
        ExprV::CallMethod(v, name, args) => py_expr(*v) + "."@ + name + "("@ + join(py_list(args), ", "@) + ")"@,
        ExprV::Tuple(t) => "("@ + join(py_list(t), ", "@) + ")"@,
        ExprV::VariableName(n) => n,
        ExprV::BoolOperation(op, c) => if c.len() == 1 {
            py_expr(c[0])
        } else {
            join(py_paren_list(c), if op == BoolOperator::And { " and "@ } else { " or "@ })
        },
        ExprV::Compare(l, r, op) => "("@ + py_expr(*l) + " "@ + compare_symbol(op) + " "@ + py_expr(*r) + ")"@,
        ExprV::UnaryOperation(v, op) => "("@ + unary_symbol(op) + py_expr(*v) + ")"@,
        ExprV::BinaryOperation(l, r, op) => "("@ + py_expr(*l) + " "@ + binary_symbol(op) + " "@ + py_expr(*r) + ")"@,
        ExprV::Index(v, i) => py_expr(*v) + "["@ + py_expr(*i) + "]"@,
        ExprV::ConstantNumber(n) => match n {
            NumberV::Int(s) => s,
            NumberV::Float(s) => s,
        },
        ExprV::ConstantString(s) => "\""@ + s + "\""@,
        ExprV::ConstantBoolean(b) => if b { "True"@ } else { "False"@ },
        ExprV::ConstantNone => "None"@,
        ExprV::List(l) => "["@ + join(py_list(l), ", "@) + "]"@,
        ExprV::Dict(p) => "{"@ + join(py_pair_list(p), ", "@) + "}"@,
        _ => seq![],
    }
}

/// The sources of a sequence of expressions.
pub open spec fn py_list(es: Seq<ExprV>) -> Seq<Seq<char>>
    decreases es,
{
    if es.len() == 0 {
        seq![]
    } else {
        py_list(es.drop_last()).push(py_expr(es.last()))
    }
}

/// The sources of a sequence of expressions, each in parentheses.
pub open spec fn py_paren_list(es: Seq<ExprV>) -> Seq<Seq<char>>
    decreases es,
{
    if es.len() == 0 {
        seq![]
    } else {
        py_paren_list(es.drop_last()).push("("@ + py_expr(es.last()) + ")"@)
    }
}

/// The sources of key-value pairs, as `key:value`.
pub open spec fn py_pair_list(ps: Seq<(ExprV, ExprV)>) -> Seq<Seq<char>>
    decreases ps,
{
    if ps.len() == 0 {
        seq![]
    } else {
        py_pair_list(ps.drop_last()).push(py_expr(ps.last().0) + ":"@ + py_expr(ps.last().1))
    }
}

/// The Python source of a statement.
pub open spec fn py_stmt(s: StmtV) -> Seq<char>
    decreases s, 0int,
{
    match s {
        StmtV::Assign(t, v) => py_expr(t) + " = "@ + py_expr(v),
        StmtV::Expression(e) => py_expr(e),
        StmtV::If(t, b, o) => "if "@ + py_expr(t) + ":\n"@ + indented(py_block(b)) + "\nelse:\n"@ + indented(py_block(o)),
        StmtV::Func(n, a, b) => "def "@ + n + "("@ + join(a, ", "@) + "):\n"@ + indented(py_block(b)),
        StmtV::Return(r) => match r {
            Some(e) => "return "@ + py_expr(e),
            None => "return"@,
        },
        StmtV::While(t, b) => "while "@ + py_expr(t) + ":\n"@ + indented(py_block(b)),
        StmtV::Break => "break"@,
        StmtV::Continue => "continue"@,
        StmtV::Import(m, a) => "import "@ + m + " as "@ + a,
        StmtV::FromImport(f, n, a) => "from "@ + f + " import "@ + n + " as "@ + a,
        _ => seq![],
    }
}

/// The sources of a sequence of statements.
pub open spec fn py_stmt_list(ss: Seq<StmtV>) -> Seq<Seq<char>>
    decreases ss, 0int,
{
    if ss.len() == 0 {
        seq![]
    } else {
        py_stmt_list(ss.drop_last()).push(py_stmt(ss.last()))
    }
}

/// The Python source of a sequence of statements, one per line.
pub open spec fn py_block(ss: Seq<StmtV>) -> Seq<char>
    decreases ss, 1int,
{
    join(py_stmt_list(ss), "\n"@)
}

/// The strings of `parts` joined by `sep`.
pub fn join_strings(parts: &Vec<String>, sep: &str) -> (r: String)
    ensures
        r@ == join(strings_view(parts@), sep@),
{
    let mut r = String::new();
    let mut i: usize = 0;
    proof {
        assert(strings_view(parts@).take(0) =~= Seq::<Seq<char>>::empty());
    }
    while i < parts.len()
        invariant
            i <= parts.len(),
            r@ == join(strings_view(parts@).take(i as int), sep@),
        decreases parts.len() - i,
    {
        let ghost sv = strings_view(parts@);
        proof {
            assert(sv.take(i + 1).drop_last() =~= sv.take(i as int));
            assert(sv.take(i + 1).last() == parts@[i as int]@);
        }
        if i == 0 {
            r = concat_strings(&r, &parts[i]);
            proof {
                assert(sv.take(1)[0] == parts@[0]@);
            }
        } else {
            r = concat(&r, sep);
            r = concat_strings(&r, &parts[i]);
        }
        i += 1;
    }
    proof {
        assert(strings_view(parts@).take(i as int) =~= strings_view(parts@));
    }
    r
}

/// Each line of `code` with four spaces before it and a newline after it.
pub fn indent_code(code: &str) -> (r: String)
    ensures
        r@ == indented(code@),
{
    let chars = crate::text::chars_of(code);
    let mut r = string_of("    ");
    let ghost start = r@;
    let mut i: usize = 0;
    proof {
        assert(chars@.take(0) =~= Seq::<char>::empty());
    }
    while i < chars.len()
        invariant
            i <= chars.len(),
            chars@ == code@,
            start == "    "@,
            r@ == start + expand_lines(chars@.take(i as int)),
        decreases chars.len() - i,
    {
        let c = chars[i];
        proof {
            assert(chars@.take(i + 1).drop_last() =~= chars@.take(i as int));
            assert(chars@.take(i + 1).last() == c);
        }
        if c == '\n' {
            r = concat(&r, "\n    ");
        } else {
            push_char(&mut r, c);
        }
        proof {
            assert(r@ =~= start + expand_lines(chars@.take(i + 1)));
        }
        i += 1;
    }
    proof {
        assert(chars@.take(i as int) =~= code@);
    }
    concat(&r, "\n")
}

fn dump_exprs(v: &Vec<Expr>) -> (r: Vec<String>)
    ensures
        strings_view(r@) == py_list(views(v@)),
    decreases v,
{
    let ghost vs = views(v@);
    let mut r: Vec<String> = Vec::new();
    let mut i: usize = 0;
    proof {
        assert(vs.take(0) =~= Seq::<ExprV>::empty());
        assert(strings_view(r@) =~= Seq::<Seq<char>>::empty());
    }
    while i < v.len()
        invariant
            i <= v.len(),
            vs == views(v@),
            strings_view(r@) == py_list(vs.take(i as int)),
        decreases v.len() - i,
    {
        let x = dump_expr(&v[i]);
        let ghost before = strings_view(r@);
        let ghost xv = x@;
        r.push(x);
        proof {
            assert(strings_view(r@) =~= before.push(xv));
            assert(vs.take(i + 1).drop_last() =~= vs.take(i as int));
            assert(vs.take(i + 1).last() == v@[i as int]@);
        }
        i += 1;
    }
    proof {
        assert(vs.take(i as int) =~= vs);
    }
    r
}

fn dump_paren_exprs(v: &Vec<Expr>) -> (r: Vec<String>)
    ensures
        strings_view(r@) == py_paren_list(views(v@)),
    decreases v,
{
    let ghost vs = views(v@);
    let mut r: Vec<String> = Vec::new();
    let mut i: usize = 0;
    proof {
        assert(vs.take(0) =~= Seq::<ExprV>::empty());
        assert(strings_view(r@) =~= Seq::<Seq<char>>::empty());
    }
    while i < v.len()
        invariant
            i <= v.len(),
            vs == views(v@),
            strings_view(r@) == py_paren_list(vs.take(i as int)),
        decreases v.len() - i,
    {
        let inner = dump_expr(&v[i]);
        let x = wrapped("(", &inner, ")");
        let ghost before = strings_view(r@);
        let ghost xv = x@;
        r.push(x);
        proof {
            assert(strings_view(r@) =~= before.push(xv));
            assert(vs.take(i + 1).drop_last() =~= vs.take(i as int));
            assert(vs.take(i + 1).last() == v@[i as int]@);
        }
        i += 1;
    }
    proof {
        assert(vs.take(i as int) =~= vs);
    }
    r
}

/// The views of key-value pairs.
pub open spec fn pair_views(p: Seq<(Expr, Expr)>) -> Seq<(ExprV, ExprV)> {
    Seq::new(p.len(), |i: int| (p[i].0@, p[i].1@))
}

fn dump_pairs(v: &Vec<(Expr, Expr)>) -> (r: Vec<String>)
    ensures
        strings_view(r@) == py_pair_list(pair_views(v@)),
    decreases v,
{
    let ghost vs = pair_views(v@);
    let mut r: Vec<String> = Vec::new();
    let mut i: usize = 0;
    proof {
        assert(vs.take(0) =~= Seq::<(ExprV, ExprV)>::empty());
        assert(strings_view(r@) =~= Seq::<Seq<char>>::empty());
    }
    while i < v.len()
        invariant
            i <= v.len(),
            vs == pair_views(v@),
            strings_view(r@) == py_pair_list(vs.take(i as int)),
        decreases v.len() - i,
    {
        let k = dump_expr(&v[i].0);
        let x = dump_expr(&v[i].1);
        let kc = concat(&k, ":");
        let p = concat_strings(&kc, &x);
        let ghost before = strings_view(r@);
        let ghost pv = p@;
        r.push(p);
        proof {
            assert(strings_view(r@) =~= before.push(pv));
            assert(vs.take(i + 1).drop_last() =~= vs.take(i as int));
            assert(vs.take(i + 1).last() == (v@[i as int].0@, v@[i as int].1@));
        }
        i += 1;
    }
    proof {
        assert(vs.take(i as int) =~= vs);
    }
    r
}

fn wrapped(open: &str, inner: &String, close: &str) -> (r: String)
    ensures
        r@ == open@ + inner@ + close@,
{
    let a = string_of(open);
    let b = concat_strings(&a, inner);
    concat(&b, close)
}

fn compare_str(op: CompareOperator) -> (r: &'static str)
    ensures
        r@ == compare_symbol(op),
{
    match op {
        CompareOperator::Less => "<",
        CompareOperator::LessOrEqual => "<=",
        CompareOperator::Greater => ">",
        CompareOperator::GreaterOrEqual => ">=",
        CompareOperator::Equal => "==",
        CompareOperator::NotEqual => "!=",
        CompareOperator::NotIn => "not in",
        CompareOperator::In => "in",
    }
}

fn binary_str(op: BinaryOperator) -> (r: &'static str)
    ensures
        r@ == binary_symbol(op),
{
    match op {
        BinaryOperator::Add => "+",
        BinaryOperator::Sub => "-",
        BinaryOperator::Mul => "*",
        BinaryOperator::Div => "/",
        BinaryOperator::Mod => "%",
        BinaryOperator::FloorDiv => "//",
        BinaryOperator::Pow => "**",
        BinaryOperator::BitAnd => "&",
        BinaryOperator::LeftShift => "<<",
        BinaryOperator::RightShift => ">>",
    }
}

fn unary_str(op: UnaryOperator) -> (r: &'static str)
    ensures
        r@ == unary_symbol(op),
{
    match op {
        UnaryOperator::Add => "+",
        UnaryOperator::Sub => "-",
        UnaryOperator::Not => "not ",
    }
}

/// `(left op right)`.
fn infix(left: &String, op: &str, right: &String) -> (r: String)
    ensures
        r@ == "("@ + left@ + " "@ + op@ + " "@ + right@ + ")"@,
{
    let mut r = string_of("(");
    r = concat_strings(&r, left);
    r = concat(&r, " ");
    r = concat(&r, op);
    r = concat(&r, " ");
    r = concat_strings(&r, right);
    concat(&r, ")")
}

fn dump_expr(e: &Expr) -> (r: String)
    ensures
        r@ == py_expr(e@),
    decreases e,
{
    let ghost ev = e@;
    match e {
        Expr::CallFunction(c) => {
            proof { assert(ev->CallFunction_1 =~= views(c.args@)); }
            let args = dump_exprs(&c.args);
            let joined = join_strings(&args, ", ");
            let inner = wrapped("(", &joined, ")");
            let r = concat_strings(&c.name, &inner);
            proof { assert(r@ =~= py_expr(ev)); }
            r
        },
        Expr::CallMethod(c) => {
            proof { assert(ev->CallMethod_2 =~= views(c.args@)); }
            let value = dump_expr(&c.value);
            let args = dump_exprs(&c.args);
            let joined = join_strings(&args, ", ");
            let inner = wrapped("(", &joined, ")");
            let mut r = concat(&value, ".");
            r = concat_strings(&r, &c.name);
            r = concat_strings(&r, &inner);
            proof { assert(r@ =~= py_expr(ev)); }
            r
        },
        Expr::Tuple(t) => {
            proof { assert(ev->Tuple_0 =~= views(t@)); }
            let parts = dump_exprs(t);
            let joined = join_strings(&parts, ", ");
            wrapped("(", &joined, ")")
        },
        Expr::VariableName(n) => crate::ast::copy_string(n),
        Expr::BoolOperation(b) => {
            proof { assert(ev->BoolOperation_1 =~= views(b.conditions@)); }
            if b.conditions.len() == 1 {
                dump_expr(&b.conditions[0])
            } else {
                let parts = dump_paren_exprs(&b.conditions);
                let sep = match b.op {
                    BoolOperator::And => " and ",
                    BoolOperator::Or => " or ",
                };
                proof {
                    if b.op == BoolOperator::And {
                        assert(sep@ == " and "@);
                    } else {
                        assert(sep@ == " or "@);
                    }
                }
                join_strings(&parts, sep)
            }
        },
        Expr::Compare(c) => {
            let l = dump_expr(&c.left);
            let r = dump_expr(&c.right);
            infix(&l, compare_str(c.op), &r)
        },
        Expr::UnaryOperation(u) => {
            let v = dump_expr(&u.value);
            let mut r = string_of("(");
            r = concat(&r, unary_str(u.op));
            r = concat_strings(&r, &v);
            let r = concat(&r, ")");
            proof { assert(r@ =~= py_expr(ev)); }
            r
        },
        Expr::BinaryOperation(b) => {
            let l = dump_expr(&b.left);
            let r = dump_expr(&b.right);
            infix(&l, binary_str(b.op), &r)
        },
        Expr::Index(x) => {
            let v = dump_expr(&x.value);
            let i = dump_expr(&x.index);
            let inner = wrapped("[", &i, "]");
            let r = concat_strings(&v, &inner);
            proof { assert(r@ =~= py_expr(ev)); }
            r
        },
        Expr::ConstantNumber(n) => match n {
            Number::Int(s) => crate::ast::copy_string(s),
            Number::Float(s) => crate::ast::copy_string(s),
        },
        Expr::ConstantString(s) => wrapped("\"", s, "\""),
        Expr::ConstantBoolean(b) => if *b { string_of("True") } else { string_of("False") },
        Expr::ConstantNone => string_of("None"),
        Expr::List(l) => {
            proof { assert(ev->List_0 =~= views(l@)); }
            let parts = dump_exprs(l);
            let joined = join_strings(&parts, ", ");
            wrapped("[", &joined, "]")
        },
        Expr::Dict(d) => {
            proof { assert(ev->Dict_0 =~= pair_views(d.pairs@)); }
            let parts = dump_pairs(&d.pairs);
            let joined = join_strings(&parts, ", ");
            wrapped("{", &joined, "}")
        },
    }
}

fn dump_block(v: &Vec<Statement>) -> (r: String)
    ensures
        r@ == py_block(views(v@)),
    decreases v,
{
    let ghost vs = views(v@);
    let mut parts: Vec<String> = Vec::new();
    let mut i: usize = 0;
    proof {
        assert(vs.take(0) =~= Seq::<StmtV>::empty());
        assert(strings_view(parts@) =~= Seq::<Seq<char>>::empty());
    }
    while i < v.len()
        invariant
            i <= v.len(),
            vs == views(v@),
            strings_view(parts@) == py_stmt_list(vs.take(i as int)),
        decreases v.len() - i,
    {
        let x = dump_stmt(&v[i]);
        let ghost before = strings_view(parts@);
        let ghost xv = x@;
        parts.push(x);
        proof {
            assert(strings_view(parts@) =~= before.push(xv));
            assert(vs.take(i + 1).drop_last() =~= vs.take(i as int));
            assert(vs.take(i + 1).last() == v@[i as int]@);
        }
        i += 1;
    }
    proof {
        assert(vs.take(i as int) =~= vs);
    }
    join_strings(&parts, "\n")
}

/// `head` followed by `block`, indented.
fn with_block(head: &String, block: &String) -> (r: String)
    ensures
        r@ == head@ + indented(block@),
{
    let ind = indent_code(block.as_str());
    concat_strings(head, &ind)
}

fn dump_stmt(s: &Statement) -> (r: String)
    ensures
        r@ == py_stmt(s@),
    decreases s,
{
    let ghost sv = s@;
    match s {
        Statement::Assign(a) => {
            let t = dump_expr(&a.target);
            let v = dump_expr(&a.value);
            let r = concat(&t, " = ");
            concat_strings(&r, &v)
        },
        Statement::Expression(e) => dump_expr(e),
        Statement::If(x) => {
            proof {
                assert(views(x.body@) =~= sv->If_1);
                assert(views(x.orelse@) =~= sv->If_2);
            }
            let t = dump_expr(&x.test);
            let mut head = string_of("if ");
            head = concat_strings(&head, &t);
            head = concat(&head, ":\n");
            let body = dump_block(&x.body);
            let first = with_block(&head, &body);
            let second_head = concat(&first, "\nelse:\n");
            let orelse = dump_block(&x.orelse);
            let r = with_block(&second_head, &orelse);
            proof { assert(r@ =~= py_stmt(sv)); }
            r
        },
        Statement::Func(f) => {
            proof {
                assert(views(f.body@) =~= sv->Func_2);
            }
            let args = join_strings(&f.args, ", ");
            let mut head = string_of("def ");
            head = concat_strings(&head, &f.name);
            head = concat(&head, "(");
            head = concat_strings(&head, &args);
            head = concat(&head, "):\n");
            let body = dump_block(&f.body);
            let r = with_block(&head, &body);
            proof { assert(r@ =~= py_stmt(sv)); }
            r
        },
        Statement::Return(e) => match e {
            Some(x) => {
                let v = dump_expr(x);
                let r = string_of("return ");
                concat_strings(&r, &v)
            },
            None => string_of("return"),
        },
        Statement::While(w) => {
            proof {
                assert(views(w.body@) =~= sv->While_1);
            }
            let t = dump_expr(&w.test);
            let mut head = string_of("while ");
            head = concat_strings(&head, &t);
            head = concat(&head, ":\n");
            let body = dump_block(&w.body);
            let r = with_block(&head, &body);
            proof { assert(r@ =~= py_stmt(sv)); }
            r
        },
        Statement::Break => string_of("break"),
        Statement::Continue => string_of("continue"),
        Statement::Import(i) => {
            let mut r = string_of("import ");
            r = concat_strings(&r, &i.import);
            r = concat(&r, " as ");
            concat_strings(&r, &i.alias)
        },
        Statement::FromImport(i) => {
            let mut r = string_of("from ");
            r = concat_strings(&r, &i.from);
            r = concat(&r, " import ");
            r = concat_strings(&r, &i.import);
            r = concat(&r, " as ");
            concat_strings(&r, &i.alias)
        },
    }
}

/// Printing as Python source.
pub trait DumpPython {
    /// The source printed.
    spec fn python(&self) -> Seq<char>;

    fn to_python_code(&self) -> (r: String)
        ensures
            r@ == self.python();
}

impl DumpPython for Expr {
    open spec fn python(&self) -> Seq<char> {
        py_expr(self@)
    }

    fn to_python_code(&self) -> (r: String) {
        dump_expr(self)
    }
}

impl DumpPython for Statement {
    open spec fn python(&self) -> Seq<char> {
        py_stmt(self@)
    }

    fn to_python_code(&self) -> (r: String) {
        dump_stmt(self)
    }
}

impl DumpPython for Vec<Statement> {
    open spec fn python(&self) -> Seq<char> {
        py_block(views(self@))
    }

    fn to_python_code(&self) -> (r: String) {
        dump_block(self)
    }
}


/// The Python symbol of each comparison operator.
pub open spec fn python_compare_symbol(op: CompareOperator) -> Seq<char> {
    match op {
        CompareOperator::Less => "<"@,
        CompareOperator::LessOrEqual => "<="@,
        CompareOperator::Greater => ">"@,
        CompareOperator::GreaterOrEqual => ">="@,
        CompareOperator::Equal => "=="@,
        CompareOperator::NotEqual => "!="@,
        CompareOperator::NotIn => "not in"@,
        CompareOperator::In => "in"@,
    }
}

/// The Python symbol of each binary operator.
pub open spec fn python_binary_symbol(op: BinaryOperator) -> Seq<char> {
    match op {
        BinaryOperator::Add => "+"@,
        BinaryOperator::Sub => "-"@,
        BinaryOperator::Mul => "*"@,
        BinaryOperator::Div => "/"@,
        BinaryOperator::Mod => "%"@,
        BinaryOperator::FloorDiv => "//"@,
        BinaryOperator::Pow => "**"@,
        BinaryOperator::BitAnd => "&"@,
        BinaryOperator::LeftShift => "<<"@,
        BinaryOperator::RightShift => ">>"@,
    }
}

/// Two symbols of different lengths, or of different first characters.
pub open spec fn symbols_apart(a: Seq<char>, b: Seq<char>) -> bool {
    a.len() != b.len() || (a.len() > 0 && b.len() > 0 && a[0] != b[0])
}

/// Distinct comparison operators have symbols apart.
pub proof fn lemma_compare_symbols_apart(o1: CompareOperator, o2: CompareOperator)
    requires
        o1 != o2,
    ensures
        symbols_apart(python_compare_symbol(o1), python_compare_symbol(o2)),
{
    reveal_strlit("<");
    reveal_strlit("<=");
    reveal_strlit(">");
    reveal_strlit(">=");
    reveal_strlit("==");
    reveal_strlit("!=");
    reveal_strlit("not in");
    reveal_strlit("in");
}

/// Distinct binary operators have symbols apart.
pub proof fn lemma_binary_symbols_apart(o1: BinaryOperator, o2: BinaryOperator)
    requires
        o1 != o2,
    ensures
        symbols_apart(python_binary_symbol(o1), python_binary_symbol(o2)),
{
    reveal_strlit("+");
    reveal_strlit("-");
    reveal_strlit("*");
    reveal_strlit("/");
    reveal_strlit("%");
    reveal_strlit("//");
    reveal_strlit("**");
    reveal_strlit("&");
    reveal_strlit("<<");
    reveal_strlit(">>");
}

/// Texts that differ only in symbols apart in the same place differ.
proof fn lemma_infix_apart(p: Seq<char>, a: Seq<char>, b: Seq<char>, q: Seq<char>)
    requires
        symbols_apart(a, b),
    ensures
        p + a + q != p + b + q,
{
    if a.len() == b.len() {
        assert((p + a + q)[p.len() as int] == a[0]);
        assert((p + b + q)[p.len() as int] == b[0]);
    } else {
        assert((p + a + q).len() != (p + b + q).len());
    }
}

/// A dumped comparison is its left operand, the Python symbol of its own operator and its
/// right operand, spaced and in parentheses (`<=` for `LessOrEqual`, `<` for `Less`).
pub proof fn law_compare_dump(l: ExprV, r: ExprV, op: CompareOperator)
    ensures
        py_expr(ExprV::Compare(Box::new(l), Box::new(r), op))
            == "("@ + py_expr(l) + " "@ + python_compare_symbol(op) + " "@ + py_expr(r) + ")"@,
{
}

/// Distinct comparison operators dump apart on the same operands.
pub proof fn law_compare_dumps_apart(l: ExprV, r: ExprV, o1: CompareOperator, o2: CompareOperator)
    requires
        o1 != o2,
    ensures
        py_expr(ExprV::Compare(Box::new(l), Box::new(r), o1)) != py_expr(ExprV::Compare(Box::new(l), Box::new(r), o2)),
{
    law_compare_dump(l, r, o1);
    law_compare_dump(l, r, o2);
    lemma_compare_symbols_apart(o1, o2);
    let p = "("@ + py_expr(l) + " "@;
    let q = " "@ + py_expr(r) + ")"@;
    lemma_infix_apart(p, python_compare_symbol(o1), python_compare_symbol(o2), q);
    assert(p + python_compare_symbol(o1) + q =~= "("@ + py_expr(l) + " "@ + python_compare_symbol(o1) + " "@ + py_expr(r) + ")"@);
    assert(p + python_compare_symbol(o2) + q =~= "("@ + py_expr(l) + " "@ + python_compare_symbol(o2) + " "@ + py_expr(r) + ")"@);
}

/// A dumped binary operation is its left operand, the Python symbol of its own operator and
/// its right operand, spaced and in parentheses (`%` for `Mod`, `//` for `FloorDiv`).
pub proof fn law_binary_dump(l: ExprV, r: ExprV, op: BinaryOperator)
    ensures
        py_expr(ExprV::BinaryOperation(Box::new(l), Box::new(r), op))
            == "("@ + py_expr(l) + " "@ + python_binary_symbol(op) + " "@ + py_expr(r) + ")"@,
{
}

/// Distinct binary operators dump apart on the same operands.
pub proof fn law_binary_dumps_apart(l: ExprV, r: ExprV, o1: BinaryOperator, o2: BinaryOperator)
    requires
        o1 != o2,
    ensures
        py_expr(ExprV::BinaryOperation(Box::new(l), Box::new(r), o1))
            != py_expr(ExprV::BinaryOperation(Box::new(l), Box::new(r), o2)),
{
    law_binary_dump(l, r, o1);
    law_binary_dump(l, r, o2);
    lemma_binary_symbols_apart(o1, o2);
    let p = "("@ + py_expr(l) + " "@;
    let q = " "@ + py_expr(r) + ")"@;
    lemma_infix_apart(p, python_binary_symbol(o1), python_binary_symbol(o2), q);
    assert(p + python_binary_symbol(o1) + q =~= "("@ + py_expr(l) + " "@ + python_binary_symbol(o1) + " "@ + py_expr(r) + ")"@);
    assert(p + python_binary_symbol(o2) + q =~= "("@ + py_expr(l) + " "@ + python_binary_symbol(o2) + " "@ + py_expr(r) + ")"@);
}


/// A dumped `if` is `if`, the test, `:`, the indented body, `else:` and the indented `else`
/// branch; a dumped assignment is the target, ` = ` and the value.
pub proof fn law_if_assign_dump(t: ExprV, b: Seq<StmtV>, o: Seq<StmtV>, v: ExprV)
    ensures
        py_stmt(StmtV::If(t, b, o)) == "if "@ + py_expr(t) + ":\n"@ + indented(py_block(b)) + "\nelse:\n"@ + indented(py_block(o)),
        py_stmt(StmtV::Assign(t, v)) == py_expr(t) + " = "@ + py_expr(v),
{
}

/// A dumped unary operation is its Python symbol (`+`, `-` or `not `) and its operand, in
/// parentheses; a dumped subscript is the value, then the index in brackets.
pub proof fn law_unary_index_dump(v: ExprV, i: ExprV, op: UnaryOperator)
    ensures
        op == UnaryOperator::Add ==> py_expr(ExprV::UnaryOperation(Box::new(v), op)) == "("@ + "+"@ + py_expr(v) + ")"@,
        op == UnaryOperator::Sub ==> py_expr(ExprV::UnaryOperation(Box::new(v), op)) == "("@ + "-"@ + py_expr(v) + ")"@,
        op == UnaryOperator::Not ==> py_expr(ExprV::UnaryOperation(Box::new(v), op)) == "("@ + "not "@ + py_expr(v) + ")"@,
        py_expr(ExprV::Index(Box::new(v), Box::new(i))) == py_expr(v) + "["@ + py_expr(i) + "]"@,
{
}

/// A dumped chain of two or more conditions joins them, each in parentheses, with ` and `
/// for `and` and ` or ` for `or`; a single condition is dumped alone.
pub proof fn law_bool_dump(op: BoolOperator, c: Seq<ExprV>)
    ensures
        c.len() == 1 ==> py_expr(ExprV::BoolOperation(op, c)) == py_expr(c[0]),
        c.len() != 1 && op == BoolOperator::And ==> py_expr(ExprV::BoolOperation(op, c)) == join(py_paren_list(c), " and "@),
        c.len() != 1 && op == BoolOperator::Or ==> py_expr(ExprV::BoolOperation(op, c)) == join(py_paren_list(c), " or "@),
{
}

} // verus!
