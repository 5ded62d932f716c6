use vstd::prelude::*;

use syn::parse::Parser;

verus! {

/// Relies on syn's `Punctuated::<Expr, Token![,]>::parse_terminated` through
/// `Parser::parse_str`, and on quote's `ToTokens::to_token_stream` to print
/// each parsed expression. How the tokens are printed depends on the token
/// backend the process runs with, so nothing is promised of the texts.
#[verifier::external_body]
fn parse_expr_list(src: &str) -> (r: Option<Vec<String>>)
{
    let parser = syn::punctuated::Punctuated::<syn::Expr, syn::token::Comma>::parse_terminated;
    let list = parser.parse_str(src).ok()?;
    Some(list.into_iter().map(|e| quote::ToTokens::to_token_stream(&e).to_string()).collect())
}

/// The arguments of a block or partial: host expressions separated by commas.
pub struct ExprList {
    list: Vec<String>,
}

impl ExprList {
    pub closed spec fn spec_list(&self) -> Seq<Seq<char>> {
        self.list@.map_values(|s: String| s@)
    }

    /// Parses `src` as a comma-separated list of host expressions.
    pub fn parse(src: &str) -> (r: Option<ExprList>) {
        match parse_expr_list(src) {
            Some(list) => Some(ExprList { list }),
            None => None,
        }
    }

    /// The expressions, in order.
    pub fn into_vec(self) -> (r: Vec<String>)
        ensures
            r@.map_values(|s: String| s@) == self.spec_list(),
    {
        self.list
    }
}

} // verus!
