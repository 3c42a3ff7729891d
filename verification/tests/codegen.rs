use hydroflow::codegen::{doc_lines, fresh_rhs_ident, props_struct_names, DocAttr, DocToken};

#[test]
fn fresh_rhs_ident_avoids_taken_names() {
    assert_eq!("Rhs", fresh_rhs_ident(&"Foo".to_owned(), &vec!["T".to_owned()]));
    assert_eq!("Rhs_", fresh_rhs_ident(&"Rhs".to_owned(), &vec![]));
    assert_eq!(
        "Rhs__",
        fresh_rhs_ident(&"Foo".to_owned(), &vec!["Rhs".to_owned(), "Rhs_".to_owned()])
    );
    // `struct Foo<Rhs>(Rhs)` gets a parameter that is still an identifier.
    assert_eq!("Rhs_", fresh_rhs_ident(&"Foo".to_owned(), &vec!["Rhs".to_owned()]));
}

#[test]
fn props_struct_names_are_pascal_case() {
    let names = vec!["for_each".to_owned(), "merge".to_owned(), "source_iter".to_owned()];
    assert_eq!(
        vec!["ForEachProps".to_owned(), "MergeProps".to_owned(), "SourceIterProps".to_owned()],
        props_struct_names(&names)
    );
}

fn doc(outer: bool, is_doc: bool, tokens: Vec<DocToken>) -> DocAttr {
    DocAttr { outer, is_doc, tokens }
}

#[test]
fn doc_lines_keep_only_outer_doc_strings() {
    let attrs = vec![
        doc(true, true, vec![DocToken::Punct('='), DocToken::StrLit(" Merges inputs.".to_owned())]),
        doc(false, true, vec![DocToken::Punct('='), DocToken::StrLit(" inner".to_owned())]),
        doc(true, false, vec![DocToken::Punct('='), DocToken::StrLit(" not doc".to_owned())]),
        doc(true, true, vec![DocToken::Punct('='), DocToken::StrLit("no space".to_owned())]),
        doc(true, true, vec![DocToken::Punct('+'), DocToken::StrLit(" wrong punct".to_owned())]),
        doc(true, true, vec![DocToken::Punct('='), DocToken::Other]),
        doc(true, true, vec![DocToken::Punct('='), DocToken::StrLit("  two".to_owned())]),
    ];
    assert_eq!(
        vec!["Merges inputs.".to_owned(), "no space".to_owned(), " two".to_owned()],
        doc_lines(&attrs)
    );
}
