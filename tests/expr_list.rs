use quote::ToTokens;
use yarte::expr_list::ExprList;

fn printed(src: &str) -> String {
    syn::parse_str::<syn::Expr>(src).unwrap().to_token_stream().to_string()
}

#[test]
fn expr_list_test() {
    let src = "bar, foo = \"bar,\"\n, fuu = 1  , goo = true,    ";
    let expected = vec![printed("bar"), printed("foo=\"bar,\""), printed("fuu=1"), printed("goo=true")];

    let res: Vec<String> = ExprList::parse(src).unwrap().into_vec();

    assert_eq!(expected, res);

    let src = "bar, foo = \"bar,\"\n, fuu = 1  , goo = true";
    let res: Vec<String> = ExprList::parse(src).unwrap().into_vec();

    assert_eq!(expected, res);
}

#[test]
fn expr_list_rejects_garbage() {
    assert!(ExprList::parse("a, , b").is_none());
    assert_eq!(ExprList::parse("").unwrap().into_vec(), Vec::<String>::new());
}
