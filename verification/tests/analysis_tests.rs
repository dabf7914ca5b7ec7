use nmm::meta::{
    CrateName, DepType, Dependency, DependencyInfo, Package, PackageID, Resolve, ResolveDep,
    ResolveNode, RustEdition, Target, TargetKind,
};
use nmm::pci::{parse_pci_ids, BinaryOffsetAllocator, BinaryStringAllocator};
use nmm::resolve::{ResolveError, ResolveErrorReason, Resolver};

fn info(name: &str, rename: Option<&str>) -> DependencyInfo {
    DependencyInfo {
        global_name: CrateName::new(name),
        local_name: rename.map(CrateName::new),
        request: "*".to_string(),
        kind: DepType::Normal,
        optional: false,
        uses_default_features: true,
        features: vec![],
        target: None,
        path: None,
        registry: None,
    }
}

fn target(name: &str, kind: TargetKind) -> Target {
    Target {
        name: CrateName::new(name),
        kind,
        src_path: "src/lib.rs".to_string(),
        edition: RustEdition::Edition2021,
        required_features: None,
        doc: true,
        test: true,
    }
}

fn package(id: &str, name: &str, deps: Vec<Dependency>, targets: Vec<Target>) -> Package {
    Package {
        id: PackageID::new(id),
        name: CrateName::new(name),
        version: "0.1.0".to_string(),
        dependencies: deps,
        targets,
        features: vec![],
        manifest_path: "Cargo.toml".to_string(),
        metadata: None,
        edition: RustEdition::Edition2021,
    }
}

fn dep(name: &str, id: &str) -> ResolveDep {
    ResolveDep { name: CrateName::new(name), id: PackageID::new(id), dep_kinds: vec![] }
}

fn node(id: &str, deps: Vec<ResolveDep>) -> ResolveNode {
    ResolveNode { id: PackageID::new(id), dependencies: deps }
}

fn workspace() -> Vec<Package> {
    vec![
        package(
            "app 0.1.0",
            "app",
            vec![
                Dependency::Unresolved(info("serde", None)),
                Dependency::Unresolved(info("serde_json", Some("json"))),
                Dependency::Unresolved(info("my-util", None)),
            ],
            vec![target("app", TargetKind::Bin)],
        ),
        package("serde 1.0.0", "serde", vec![], vec![target("serde", TargetKind::Lib)]),
        package(
            "serde_json 1.0.0",
            "serde_json",
            vec![],
            vec![target("serde_json", TargetKind::Lib)],
        ),
        package("my-util 0.2.0", "my-util", vec![], vec![target("my_util", TargetKind::Lib)]),
        package("tool 1.0.0", "tool", vec![], vec![target("tool", TargetKind::Bin)]),
    ]
}

fn resolved_id(d: &Dependency) -> Option<String> {
    match d {
        Dependency::Resolved { resolved_id, .. } => Some(resolved_id.as_str().to_string()),
        Dependency::Unresolved(_) => None,
    }
}

#[test]
fn resolver_ties_dependencies_to_packages() {
    let nodes = vec![
        node(
            "app 0.1.0",
            vec![
                dep("serde", "serde 1.0.0"),
                dep("serde_json", "serde_json 1.0.0"),
                dep("my_util", "my-util 0.2.0"),
            ],
        ),
        node("serde 1.0.0", vec![]),
    ];
    let mut resolver = Resolver::new(workspace(), Resolve { nodes, root: None });
    let packages = resolver.resolve();
    assert!(resolver.errors().is_empty());
    assert_eq!(packages.len(), 2);
    assert_eq!(packages[0].name.as_str(), "app");
    let ids: Vec<Option<String>> = packages[0].dependencies.iter().map(resolved_id).collect();
    assert_eq!(
        ids,
        vec![
            Some("serde 1.0.0".to_string()),
            Some("serde_json 1.0.0".to_string()),
            Some("my-util 0.2.0".to_string()),
        ]
    );
    assert_eq!(packages[0].dependencies[1].info().effective_name().as_str(), "json");
    assert_eq!(packages[1].name.as_str(), "serde");
}

#[test]
fn resolver_reports_missing_node_package() {
    let nodes = vec![node("ghost 0.0.0", vec![]), node("serde 1.0.0", vec![])];
    let mut resolver = Resolver::new(workspace(), Resolve { nodes, root: None });
    let packages = resolver.resolve();
    assert_eq!(packages.len(), 1);
    assert_eq!(resolver.errors().len(), 1);
    assert_eq!(
        resolver.errors()[0].message(),
        "Error resolving package <unknown>\nPackage ID ghost 0.0.0 not found in packages list\n"
    );
}

#[test]
fn resolver_reports_missing_dependency_package() {
    let nodes = vec![node("app 0.1.0", vec![dep("missing", "missing 1.0.0")])];
    let mut resolver = Resolver::new(workspace(), Resolve { nodes, root: None });
    assert!(resolver.resolve().is_empty());
    assert_eq!(
        resolver.errors()[0].message(),
        "Error resolving package app (id: app 0.1.0)\nDependency package ID missing 1.0.0 not found in packages list\n"
    );
}

#[test]
fn resolver_reports_dependency_without_library() {
    let nodes = vec![node("app 0.1.0", vec![dep("tool", "tool 1.0.0")])];
    let mut resolver = Resolver::new(workspace(), Resolve { nodes, root: None });
    assert!(resolver.resolve().is_empty());
    assert_eq!(
        resolver.errors()[0].reason().message(),
        "Dependency tool (ID: tool 1.0.0) has no lib or proc-macro target"
    );
}

#[test]
fn resolver_reports_undeclared_dependency() {
    let mut packages = workspace();
    packages.push(package("extra 1.0.0", "extra", vec![], vec![target("extra", TargetKind::ProcMacro)]));
    let nodes = vec![node("app 0.1.0", vec![dep("extra", "extra 1.0.0")])];
    let mut resolver = Resolver::new(packages, Resolve { nodes, root: None });
    assert!(resolver.resolve().is_empty());
    assert_eq!(
        resolver.errors()[0].reason().message(),
        "Dependency extra (ID: extra 1.0.0) not found in package's Cargo.toml dependencies\n  - serde (serde), optional: false, features: []\n  - json (serde_json), optional: false, features: []\n  - my_util (my_util), optional: false, features: []"
    );
}

#[test]
fn resolve_error_parts() {
    let e = ResolveError::new(
        None,
        ResolveErrorReason::NodePackageNotFound { package_id: PackageID::new("x 1") },
    );
    assert!(e.package().is_none());
    assert!(matches!(e.reason(), ResolveErrorReason::NodePackageNotFound { .. }));
}

#[test]
fn metadata_names_and_kinds() {
    assert_eq!(DepType::from_kind(Some("dev")), DepType::Dev);
    assert_eq!(DepType::from_kind(Some("build")), DepType::Build);
    assert_eq!(DepType::from_kind(Some("other")), DepType::Normal);
    assert_eq!(DepType::from_kind(None), DepType::Normal);
    assert_eq!(TargetKind::from_name("proc-macro"), Some(TargetKind::ProcMacro));
    assert_eq!(TargetKind::from_name("custom-build"), Some(TargetKind::CustomBuild));
    assert_eq!(TargetKind::from_name("cdylib"), None);
    assert_eq!(CrateName::new("my-crate-name").as_str(), "my_crate_name");
    assert!(CrateName::new("a").same(&CrateName::new("a")));
    assert_eq!(CrateName::new("serde-json").as_str(), "serde_json");
    assert!(CrateName::new("serde-json").same(&CrateName::new("serde_json")));
    assert!(!PackageID::new("a 1").same(&PackageID::new("a 2")));
    let renamed = info("serde_json", Some("json"));
    assert_eq!(renamed.effective_name().as_str(), "json");
    assert_eq!(info("serde", None).effective_name().as_str(), "serde");
}

#[test]
fn package_clone_keeps_values() {
    let p = workspace().remove(0);
    let q = p.clone();
    assert_eq!(q.id.as_str(), "app 0.1.0");
    assert_eq!(q.dependencies.len(), 3);
    assert_eq!(q.targets[0].name.as_str(), "app");
}

fn lines(text: &str) -> Vec<String> {
    text.lines().map(|l| l.to_string()).collect()
}

#[test]
fn pci_ids_parse_vendors_devices_subsystems() {
    let input = lines(
        "# comment\n\n0001  SafeNet (wrong ID)\n0010  Allied Telesis, Inc\n\t8139  AT-2500TX V3 Ethernet\n\t\t1234 5678  Sub thing\n\t8140  Other\n001c  PEAK-System\nC 00  Unclassified device\n\t00  Non-VGA\n",
    );
    let vendors = parse_pci_ids(&input).unwrap();
    assert_eq!(vendors.len(), 3);
    assert_eq!(vendors[0].id(), 0x0001);
    // Names keep the second of the two separating spaces.
    assert_eq!(vendors[0].name(), " SafeNet (wrong ID)");
    assert!(vendors[0].devices().is_empty());
    assert_eq!(vendors[1].id(), 0x0010);
    assert_eq!(vendors[1].devices().len(), 2);
    let d = &vendors[1].devices()[0];
    assert_eq!(d.id(), 0x8139);
    assert_eq!(d.name(), " AT-2500TX V3 Ethernet");
    assert_eq!(d.subdevices().len(), 1);
    assert_eq!(d.subdevices()[0].subvendor(), 0x1234);
    assert_eq!(d.subdevices()[0].id(), 0x5678);
    assert_eq!(d.subdevices()[0].name(), " Sub thing");
    assert_eq!(vendors[1].devices()[1].id(), 0x8140);
    assert_eq!(vendors[2].name(), " PEAK-System");
}

#[test]
fn pci_ids_reject_malformed_lines() {
    assert!(parse_pci_ids(&lines("zz01  Bad\n")).is_none());
    assert!(parse_pci_ids(&lines("\t\t1234 5678  Orphan\n")).is_none());
    assert!(parse_pci_ids(&lines("\t8139  No vendor\n0001  V\n")).is_none());
    assert!(parse_pci_ids(&lines("00")).is_none());
    assert_eq!(parse_pci_ids(&lines("")).unwrap().len(), 0);
}

#[test]
fn binary_allocators_address_by_offset() {
    let mut data = BinaryOffsetAllocator::new();
    let a = data.push_data(&[1, 2, 3]);
    let b = data.push_data(&[4]);
    assert_eq!(a.get(&data), 0);
    assert_eq!(b.get(&data), 3);
    data.set_offset(0x100);
    assert_eq!(b.get(&data), 0x103);
    assert_eq!(data.buffer(), &[1, 2, 3, 4]);

    let mut strings = BinaryStringAllocator::new();
    let s = strings.push_data("ab");
    let t = strings.push_data("c");
    strings.set_offset(10);
    assert_eq!(s.get(&strings), 10);
    assert_eq!(t.get(&strings), 13);
    assert_eq!(strings.buffer(), b"ab\0c\0");
}
