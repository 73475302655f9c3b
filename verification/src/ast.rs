use vstd::prelude::*;

verus! {

/// One alternative of a template block: an output format and the expression to render.
#[derive(Debug, PartialEq)]
pub struct TemplateExpr<'a> {
    pub format: &'a str,
    pub expr: Expr<'a>,
}

#[derive(Debug, PartialEq)]
pub enum Expr<'a> {
    /// e.g. `#ffffff`
    Hex(&'a str),
    /// e.g. `0.5` or `255`
    Number(&'a str),
    /// e.g. `regular.red`
    Identifier(Vec<&'a str>),
    /// e.g. `darken(...)`
    Function { name: &'a str, args: Vec<Expr<'a>> },
}

/// A whole template block: alternatives separated by `||`, tried in order.
#[derive(Debug, PartialEq)]
pub struct TemplateBlock<'a> {
    pub fallbacks: Vec<TemplateExpr<'a>>,
}

/// The model of an expression.
pub enum SpecExpr {
    Hex(Seq<char>),
    Number(Seq<char>),
    Identifier(Seq<Seq<char>>),
    Function(Seq<char>, Seq<SpecExpr>),
}

/// The model of a template expression.
pub struct SpecTemplateExpr {
    pub format: Seq<char>,
    pub expr: SpecExpr,
}

pub open spec fn path_view<'a>(parts: Seq<&'a str>) -> Seq<Seq<char>> {
    parts.map_values(|p: &'a str| p@)
}

pub open spec fn expr_view<'a>(e: Expr<'a>) -> SpecExpr
    decreases e,
{
    match e {
        Expr::Hex(h) => SpecExpr::Hex(h@),
        Expr::Number(n) => SpecExpr::Number(n@),
        Expr::Identifier(parts) => SpecExpr::Identifier(path_view(parts@)),
        Expr::Function { name, args } => SpecExpr::Function(
            name@,
            Seq::new(
                args@.len(),
                |i: int|
                    if 0 <= i < args@.len() {
                        expr_view(args@[i])
                    } else {
                        SpecExpr::Hex(Seq::empty())
                    },
            ),
        ),
    }
}

pub open spec fn exprs_view<'a>(es: Seq<Expr<'a>>) -> Seq<SpecExpr> {
    es.map_values(|e: Expr<'a>| expr_view(e))
}

pub open spec fn template_expr_view<'a>(t: TemplateExpr<'a>) -> SpecTemplateExpr {
    SpecTemplateExpr { format: t.format@, expr: expr_view(t.expr) }
}

pub open spec fn template_exprs_view<'a>(ts: Seq<TemplateExpr<'a>>) -> Seq<SpecTemplateExpr> {
    ts.map_values(|t: TemplateExpr<'a>| template_expr_view(t))
}

} // verus!
