use palladiumos::fdfs::Node;

#[test]
fn node_name_and_kind() {
    let f = Node::File { name: "a.txt".to_string(), data: vec![1, 2] };
    let d = Node::Dir { name: "docs".to_string(), children: vec![] };
    assert_eq!(f.name(), "a.txt");
    assert_eq!(d.name(), "docs");
    assert!(f.is_file() && !f.is_dir());
    assert!(d.is_dir() && !d.is_file());
}
