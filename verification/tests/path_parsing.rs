use value_tree::error::ErrorKind;
use value_tree::error::PathFaultKind;
use value_tree::parser::PathParser;
use value_tree::path::Path;
use value_tree::path::PathNode;

#[test]
fn test_empty() {
    let parsed = "".parse::<Path>();
    assert!(matches!(parsed, Err(_)));
}

#[test]
fn test_root() {
    let except_path = Path::from(vec![]);
    let parsed = "/".parse::<Path>();
    assert!(matches!(parsed, Ok(path) if path == except_path ));
}

#[test]
fn test_1_level() {
    let except_path = Path::from(vec![PathNode::Identifier("a".to_string())]);
    let parsed = "/a".parse::<Path>();
    assert!(matches!(parsed, Ok(path) if path == except_path ));
}

#[test]
fn test_n_level() {
    let except_path = Path::from(vec![
        PathNode::Identifier("a".to_string()),
        PathNode::Identifier("b".to_string()),
        PathNode::Identifier("c".to_string()),
    ]);
    let parsed = "/a/b/c".parse::<Path>();
    assert!(matches!(parsed, Ok(path) if path == except_path ));
}

#[test]
fn test_1_level_index() {
    let except_path = Path::from(vec![
        PathNode::Identifier("a".to_string()),
        PathNode::Index(0),
    ]);
    let parsed = "/a[0]".parse::<Path>();
    assert!(matches!(parsed, Ok(path) if path == except_path ));
}

#[test]
fn test_n_level_index() {
    let except_path = Path::from(vec![
        PathNode::Identifier("a".to_string()),
        PathNode::Index(0),
        PathNode::Identifier("b".to_string()),
        PathNode::Identifier("c".to_string()),
        PathNode::Index(1),
    ]);
    let parsed = "/a[0]/b/c[1]".parse::<Path>();
    assert!(matches!(parsed, Ok(path) if path == except_path ));
}

fn fault_of(text: &str) -> (usize, PathFaultKind) {
    match PathParser::parse_to_path(text) {
        Ok(_) => panic!("{} was accepted", text),
        Err(e) => match e.kind {
            ErrorKind::PathParse { path, fault } => {
                assert_eq!(path, text);
                (fault.position, fault.kind)
            }
            _ => panic!("{} gave another kind of error", text),
        },
    }
}

#[test]
fn parse_negative_and_repeated_indices() {
    let parsed = PathParser::parse_to_path("/a[-1][2]/b_c-9[007]").unwrap();
    let expected = Path::from(vec![
        PathNode::Identifier("a".to_string()),
        PathNode::Index(-1),
        PathNode::Index(2),
        PathNode::Identifier("b_c-9".to_string()),
        PathNode::Index(7),
    ]);
    assert!(parsed == expected);
    assert!(parsed != Path::from(vec![PathNode::Identifier("a".to_string())]));
}

#[test]
fn parse_faults_name_place_and_reason() {
    assert_eq!(fault_of(""), (0, PathFaultKind::Empty));
    assert_eq!(fault_of("a"), (0, PathFaultKind::NoRoot));
    assert_eq!(fault_of("a/b"), (0, PathFaultKind::NoRoot));
    assert_eq!(fault_of("//"), (1, PathFaultKind::NoIdentifier));
    assert_eq!(fault_of("/a/"), (3, PathFaultKind::NoIdentifier));
    assert_eq!(fault_of("/a//b"), (3, PathFaultKind::NoIdentifier));
    assert_eq!(fault_of("/[0]"), (1, PathFaultKind::NoIdentifier));
    assert_eq!(fault_of("/a[]"), (3, PathFaultKind::NoIndex));
    assert_eq!(fault_of("/a[-]"), (4, PathFaultKind::NoIndex));
    assert_eq!(fault_of("/a[x]"), (3, PathFaultKind::NoIndex));
    assert_eq!(fault_of("/a[+1]"), (3, PathFaultKind::NoIndex));
    assert_eq!(fault_of("/a[1"), (4, PathFaultKind::NoClosingBracket));
    assert_eq!(fault_of("/a[1x]"), (4, PathFaultKind::NoClosingBracket));
    assert_eq!(fault_of("/a b"), (2, PathFaultKind::Stray));
    assert_eq!(fault_of("/a[0]b"), (5, PathFaultKind::Stray));
    assert_eq!(fault_of("/a.b"), (2, PathFaultKind::Stray));
    assert_eq!(fault_of("/\u{e9}"), (1, PathFaultKind::NoIdentifier));
    assert_eq!(fault_of("/a\u{e9}"), (2, PathFaultKind::Stray));
}

#[test]
fn parse_index_at_the_limits() {
    let largest = format!("/a[{}]", isize::MAX);
    let smallest = format!("/a[{}]", isize::MIN);
    assert!(
        PathParser::parse_to_path(&largest).unwrap()
            == Path::from(vec![PathNode::Identifier("a".to_string()), PathNode::Index(isize::MAX)])
    );
    assert!(
        PathParser::parse_to_path(&smallest).unwrap()
            == Path::from(vec![PathNode::Identifier("a".to_string()), PathNode::Index(isize::MIN)])
    );
    assert_eq!(fault_of("/a[9223372036854775808]"), (3, PathFaultKind::IndexTooLarge));
    assert_eq!(fault_of("/a[-9223372036854775809]"), (4, PathFaultKind::IndexTooLarge));
    assert_eq!(
        fault_of("/a[99999999999999999999999999999999999999]"),
        (3, PathFaultKind::IndexTooLarge)
    );
}

#[test]
fn default_path_is_the_root() {
    assert!(Path::default() == PathParser::parse_to_path("/").unwrap());
    assert!(Path::default().is_empty());
    assert_eq!(PathParser::parse_to_path("/a/b").unwrap().len(), 2);
}

#[test]
fn spelled_paths_are_parsed_back() {
    let paths = [
        Path::default(),
        Path::from(vec![PathNode::Identifier("a".to_string())]),
        Path::from(vec![
            PathNode::Identifier("a-b_C9".to_string()),
            PathNode::Index(0),
            PathNode::Index(-1),
            PathNode::Identifier("x".to_string()),
            PathNode::Index(isize::MAX),
            PathNode::Index(isize::MIN),
            PathNode::Index(1234567890),
        ]),
    ];
    let texts = ["/", "/a", &format!("/a-b_C9[0][-1]/x[{}][{}][1234567890]", isize::MAX, isize::MIN)];
    for (path, text) in paths.iter().zip(texts) {
        assert_eq!(path.to_text(), text);
        assert!(PathParser::parse_to_path(&path.to_text()).unwrap() == *path);
    }
    assert_eq!(PathParser::parse_to_path("/a[007]").unwrap().to_text(), "/a[7]");
    assert_eq!(PathParser::parse_to_path("/a[-0]").unwrap().to_text(), "/a[0]");
    assert_eq!(PathParser::parse_to_path("/a").unwrap().nodes().len(), 1);
    assert_eq!(Path::from(vec![PathNode::Index(3)]).to_text(), "[3]");
}

#[test]
fn paths_can_be_keys() {
    let mut seen = std::collections::HashSet::new();
    assert!(seen.insert(PathParser::parse_to_path("/a[1]").unwrap()));
    assert!(!seen.insert(PathParser::parse_to_path("/a[01]").unwrap()));
    assert!(seen.insert(PathParser::parse_to_path("/a[2]").unwrap()));
    assert!(seen.contains(&Path::from(vec![
        PathNode::Identifier("a".to_string()),
        PathNode::Index(2)
    ])));
    assert!(PathNode::Index(1) != PathNode::Identifier("1".to_string()));
    assert!(PathNode::Identifier("a".to_string()).clone() == PathNode::Identifier("a".to_string()));
}
