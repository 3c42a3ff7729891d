use hydroflow::root_path::{hydroflow_root_path, lattices_root_path, FoundCrate, RootPath};

fn text(r: RootPath) -> String {
    match r {
        RootPath::CrateKeyword => "crate".to_owned(),
        RootPath::Extern(n) => format!("::{}", n),
    }
}

#[test]
fn hydroflow_root_inside_and_outside_the_crate() {
    let itself = || FoundCrate::Itself;
    assert_eq!("crate", text(hydroflow_root_path(itself(), true, true, Some("hydroflow".to_owned()))));
    // A binary, a non-primary package, or another crate name: refer to it from outside.
    assert_eq!("::hydroflow", text(hydroflow_root_path(itself(), false, true, Some("hydroflow".to_owned()))));
    assert_eq!("::hydroflow", text(hydroflow_root_path(itself(), true, false, Some("hydroflow".to_owned()))));
    assert_eq!("::hydroflow", text(hydroflow_root_path(itself(), true, true, Some("graph".to_owned()))));
    assert_eq!("::hydroflow", text(hydroflow_root_path(itself(), true, true, None)));
    assert_eq!(
        "::hf",
        text(hydroflow_root_path(FoundCrate::Name("hf".to_owned()), true, true, None))
    );
}

#[test]
fn lattices_root_itself_or_by_name() {
    assert_eq!("crate", text(lattices_root_path(FoundCrate::Itself)));
    assert_eq!("::lat", text(lattices_root_path(FoundCrate::Name("lat".to_owned()))));
}
