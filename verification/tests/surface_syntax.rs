use hydroflow::surface::{
    Arrow, ChainElem, Color, Graph, GraphDiagnostic, HfCode, HfStatement, Operator, Pipeline,
};

fn op(name: &str, text: &str) -> Pipeline {
    Pipeline::Operator(Operator { name: name.to_owned(), text: text.to_owned() })
}

fn name(n: &str) -> Pipeline {
    Pipeline::Name(n.to_owned())
}

fn chain(elems: Vec<Pipeline>) -> Pipeline {
    let n = elems.len();
    Pipeline::Chain(
        elems
            .into_iter()
            .enumerate()
            .map(|(i, pipeline)| ChainElem {
                pipeline,
                arrow: if i + 1 < n { Some(Arrow { src: None, dst: None }) } else { None },
            })
            .collect(),
    )
}

#[test]
pub fn test_parser_basic() {
    let code = HfCode {
        statements: vec![
            HfStatement::Named("edges_input".to_owned(), op("input", "input ()")),
            HfStatement::Named("reached_vertices".to_owned(), op("seed", "seed ([0])")),
            HfStatement::Named("join".to_owned(), op("join", "join ()")),
            HfStatement::Pipeline(chain(vec![name("edges_input"), name("join")])),
        ],
    };
    let mut graph = Graph::from_hfcode(&code).unwrap();
    let problems = graph.validate_operators();
    let mermaid = graph.mermaid_string();
    println!("{}", mermaid);
    graph.add_statement(&HfStatement::Pipeline(name("edges_input")));
    assert_eq!(3, graph.num_operators());
    // `join` has one input of two; `seed` has no output yet, nor `join`.
    assert_eq!(3, problems.len());
}

#[test]
fn chains_connect_on_next_free_ports() {
    let code = HfCode {
        statements: vec![
            HfStatement::Named("a".to_owned(), op("input", "input()")),
            HfStatement::Pipeline(chain(vec![name("a"), op("map", "map(|x| x < 1 && x > 0)"), op("for_each", "for_each(\"f\")")])),
        ],
    };
    let graph = Graph::from_hfcode(&code).unwrap();
    assert!(graph.validate_operators().is_empty());
    assert!(graph.diagnostics().is_empty());
    assert_eq!(
        "flowchart TB\n    4294967297[\"input()\"]\n    4294967298[\"map(|x| x &lt; 1 &amp;&amp; x &gt; 0)\"]\n    4294967299[\"for_each(&quot;f&quot;)\"]\n\n    4294967297-->4294967298\n    4294967298-->4294967299\n",
        graph.mermaid_string()
    );
}

#[test]
fn unknown_names_and_operators_and_conflicts_are_reported() {
    let explicit = |src: u64, dst: u64| Some(Arrow { src: Some(src), dst: Some(dst) });
    let code = HfCode {
        statements: vec![
            HfStatement::Named("t".to_owned(), op("tee", "tee()")),
            HfStatement::Pipeline(Pipeline::Chain(vec![
                ChainElem { pipeline: name("t"), arrow: explicit(0, 0) },
                ChainElem { pipeline: op("frob", "frob()"), arrow: None },
            ])),
            HfStatement::Pipeline(Pipeline::Chain(vec![
                ChainElem { pipeline: name("t"), arrow: explicit(0, 1) },
                ChainElem { pipeline: op("map", "map()"), arrow: None },
            ])),
            HfStatement::Pipeline(name("missing")),
        ],
    };
    let graph = Graph::from_hfcode(&code).unwrap();
    let diags = graph.diagnostics();
    assert_eq!(2, diags.len());
    match &diags[0] {
        GraphDiagnostic::PortConflict { output, port } => {
            assert!(*output);
            assert_eq!(0, *port);
        },
        _ => panic!("expected a conflict"),
    }
    match &diags[1] {
        GraphDiagnostic::UnknownName(n) => assert_eq!("missing", n),
        _ => panic!("expected an unknown name"),
    }
    let problems = graph.validate_operators();
    // tee: 0 inputs (needs 1), 1 output (needs 2); frob unknown; map: 0 outputs.
    assert_eq!(4, problems.len());
    match &problems[0] {
        GraphDiagnostic::InputCount { op, count, min, max } => {
            assert_eq!("tee", op);
            assert_eq!((0, 1, Some(1)), (*count, *min, *max));
        },
        _ => panic!("expected an input count"),
    }
    match &problems[1] {
        GraphDiagnostic::OutputCount { op, count, min, max } => {
            assert_eq!("tee", op);
            assert_eq!((1, 2, None), (*count, *min, *max));
        },
        _ => panic!("expected an output count"),
    }
    match &problems[2] {
        GraphDiagnostic::UnknownOperator(n) => assert_eq!("frob", n),
        _ => panic!("expected an unknown operator"),
    }
    let mermaid = graph.mermaid_string();
    assert!(mermaid.ends_with("\n    4294967297-->4294967299\n"));
}

#[test]
fn empty_program_has_header_only() {
    let graph = Graph::from_hfcode(&HfCode { statements: vec![] }).unwrap();
    assert_eq!("flowchart TB\n\n", graph.mermaid_string());
}

#[test]
fn identify_subgraphs_later_operators_recolor() {
    let code = HfCode {
        statements: vec![HfStatement::Pipeline(chain(vec![
            op("source", "source()"),
            op("map", "map()"),
            op("for_each", "for_each()"),
        ]))],
    };
    let graph = Graph::from_hfcode(&code).unwrap();
    assert_eq!(
        vec![Some(Color::Pull), Some(Color::Push), Some(Color::Push)],
        graph.identify_subgraphs()
    );
}

#[test]
fn identify_subgraphs_terminates_on_cycles() {
    let code = HfCode {
        statements: vec![
            HfStatement::Named("m".to_owned(), op("merge", "merge()")),
            HfStatement::Named("n".to_owned(), op("map", "map()")),
            HfStatement::Pipeline(chain(vec![op("source", "source()"), name("m")])),
            HfStatement::Pipeline(chain(vec![name("m"), name("n")])),
            HfStatement::Pipeline(chain(vec![name("n"), name("m")])),
        ],
    };
    let graph = Graph::from_hfcode(&code).unwrap();
    assert_eq!(
        vec![Some(Color::Pull), Some(Color::Pull), Some(Color::Pull)],
        graph.identify_subgraphs()
    );
    assert_eq!(Vec::<Option<Color>>::new(), Graph::new().identify_subgraphs());
}
