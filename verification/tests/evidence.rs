use eternalist_foundry::contract::{
    Contract, Coordinate, Coordinates, DeliveryPolicy, Law, Product, Profile, Proof, TrustPolicy, SCHEMA,
};
use eternalist_foundry::digest::{digest_tree, sha256_hex, to_hex_lower, Artifact, ArtifactFile};
use eternalist_foundry::error::Error;
use eternalist_foundry::plan::Plan;
use eternalist_foundry::receipt::{
    command_display, github_run_url, locate, node_id, shellish, source_from_environment, HostWitness,
    Receipt, RECEIPT_SCHEMA,
};
use eternalist_foundry::support::{
    github_tag, select_package, support_path, Adjudication, CargoPackage, Evidence, SUPPORT_SCHEMA,
};

fn file(components: &[&str], content: &[u8]) -> ArtifactFile {
    ArtifactFile {
        components: components.iter().map(|c| c.to_string()).collect(),
        content: content.to_vec(),
    }
}

fn library() -> Contract {
    let all = [
        Coordinate::LinuxX86_64,
        Coordinate::MacosAarch64,
        Coordinate::MacosX86_64,
        Coordinate::WindowsX86_64,
    ];
    let make_proof = |name: &str, laws: &[Law], coordinates: &[Coordinate]| Proof {
        name: name.to_owned(),
        laws: laws.to_vec(),
        run: vec!["cargo".to_owned(), "test".to_owned()],
        coordinates: coordinates.to_vec(),
        timeout_minutes: 45,
        setup: None,
    };
    Contract {
        schema: SCHEMA,
        product: Product {
            name: "specimen".to_owned(),
            package: "specimen".to_owned(),
            binary: None,
            identifier: None,
            profile: Profile::RustLibrary,
        },
        coordinates: Coordinates { release_tested: all.to_vec(), supported: Vec::new() },
        exclusions: Vec::new(),
        delivery: DeliveryPolicy { linux: None, macos: None, windows: None },
        trust: TrustPolicy { macos: None, windows: None },
        proofs: vec![
            make_proof("source", &[Law::Source, Law::Security, Law::SourcePackage], &[]),
            make_proof("host", &[Law::Host], &all),
        ],
    }
}

fn host_of(coordinate: Option<Coordinate>) -> HostWitness {
    match coordinate {
        Some(c) => HostWitness { os: c.os().to_owned(), arch: c.arch().to_owned() },
        None => HostWitness { os: "linux".to_owned(), arch: "x86_64".to_owned() },
    }
}

fn evidence_for(contract: &Contract, plan: &Plan, source: &str) -> Vec<Evidence> {
    plan.nodes
        .iter()
        .map(|node| {
            let planned = contract.proof_named(&node.proof).expect("planned proof");
            let artifacts = if node.id == "host--linux-x86_64" {
                vec![Artifact { path: "a".to_owned(), bytes: 5, sha256: sha256_hex(b"first") }]
            } else {
                Vec::new()
            };
            let receipt = Receipt::seal(
                node,
                planned,
                host_of(node.coordinate),
                source.to_owned(),
                0,
                1,
                true,
                Some(0),
                None,
                artifacts.clone(),
            );
            Evidence { receipt, inventory: if artifacts.is_empty() { None } else { Some(artifacts) } }
        })
        .collect()
}

#[test]
fn artifact_inventory_is_sorted_and_content_addressed() {
    let inventory = digest_tree(vec![file(&["z", "b"], b"second"), file(&["a"], b"first")]);
    assert_eq!(inventory[0].path, "a");
    assert_eq!(inventory[1].path, "z/b");
    assert_ne!(inventory[0].sha256, inventory[1].sha256);
}

#[test]
fn inventory_orders_paths_by_component() {
    let inventory = digest_tree(vec![
        file(&["a-b"], b"1"),
        file(&["a", "b"], b"22"),
        file(&["A"], b""),
    ]);
    let paths: Vec<&str> = inventory.iter().map(|a| a.path.as_str()).collect();
    assert_eq!(paths, ["A", "a/b", "a-b"]);
    assert_eq!(inventory[1].bytes, 2);
    assert_eq!(inventory[0].sha256, "e3b0c44298fc1c149afbf4c8996fb92427ae41e4649b934ca495991b7852b855");
}

#[test]
fn digest_is_lowercase_hex_sha256() {
    assert_eq!(sha256_hex(b"abc"), "ba7816bf8f01cfea414140de5dae2223b00361a396177a9cb410ff61f20015ad");
    assert_eq!(to_hex_lower(&[0x00, 0x0f, 0xa0, 0xff]), "000fa0ff");
    assert_eq!(sha256_hex(b"first").len(), 64);
}

#[test]
fn empty_inventory_survives_archive_directory_elision() {
    let mut receipt = Receipt {
        schema: RECEIPT_SCHEMA,
        node: "source--global".to_owned(),
        proof: "source".to_owned(),
        coordinate: None,
        host: HostWitness { os: "linux".to_owned(), arch: "x86_64".to_owned() },
        laws: vec![Law::Source],
        source: "source".to_owned(),
        command: vec!["true".to_owned()],
        begun_unix_seconds: 0,
        elapsed_milliseconds: 0,
        success: true,
        exit_code: Some(0),
        run_url: None,
        artifacts: Vec::new(),
    };
    receipt.validate_artifacts(None).expect("archivers may omit empty directories");
    receipt.artifacts.push(Artifact { path: "missing".to_owned(), bytes: 1, sha256: "00".repeat(32) });
    assert!(receipt.validate_artifacts(None).is_err());
}

#[test]
fn altered_artifacts_are_refused() {
    let recorded = digest_tree(vec![file(&["a"], b"first")]);
    let receipt = Receipt {
        schema: RECEIPT_SCHEMA,
        node: "host--linux-x86_64".to_owned(),
        proof: "host".to_owned(),
        coordinate: Some(Coordinate::LinuxX86_64),
        host: HostWitness { os: "linux".to_owned(), arch: "x86_64".to_owned() },
        laws: vec![Law::Host],
        source: "abc".to_owned(),
        command: vec!["true".to_owned()],
        begun_unix_seconds: 0,
        elapsed_milliseconds: 0,
        success: true,
        exit_code: Some(0),
        run_url: None,
        artifacts: recorded.clone(),
    };
    receipt.validate_artifacts(Some(&recorded)).expect("same inventory");
    let altered = digest_tree(vec![file(&["a"], b"First")]);
    assert!(matches!(receipt.validate_artifacts(Some(&altered)), Err(Error::InventoryMismatch(n)) if n == "host--linux-x86_64"));
    assert!(matches!(receipt.validate_artifacts(Some(&Vec::new())), Err(Error::InventoryMismatch(_))));
}

#[test]
fn foreign_host_coordinate_is_rejected_before_execution() {
    let contract = library();
    let plan = Plan::forge(&contract).expect("forge plan");
    let error = locate(&contract, &plan, "host", Some(Coordinate::WindowsX86_64), "linux", "x86_64")
        .expect_err("foreign coordinate must fail");
    assert!(matches!(error, Error::ForeignHost(Coordinate::WindowsX86_64, os, arch) if os == "linux" && arch == "x86_64"));
    let (node, proof) = locate(&contract, &plan, "host", Some(Coordinate::LinuxX86_64), "linux", "x86_64")
        .expect("native coordinate");
    assert_eq!(node.id, "host--linux-x86_64");
    assert_eq!(proof.name, "host");
    assert!(matches!(
        locate(&contract, &plan, "host", None, "linux", "x86_64"),
        Err(Error::UnplannedNode(id)) if id == "host--global"
    ));
    assert!(locate(&contract, &plan, "source", None, "windows", "aarch64").is_ok());
}

#[test]
fn node_identifiers_join_proof_and_placement() {
    assert_eq!(node_id("host", Some(Coordinate::MacosX86_64)), "host--macos-x86_64");
    assert_eq!(node_id("source", None), "source--global");
}

#[test]
fn commands_display_as_a_shell_reads_them() {
    assert_eq!(shellish("cargo"), "cargo");
    assert_eq!(shellish("--features=a:b/c.d_e"), "--features=a:b/c.d_e");
    assert_eq!(shellish("two words"), "\"two words\"");
    let command = vec!["echo".to_owned(), "a b".to_owned(), "x\"y".to_owned()];
    assert_eq!(command_display(&command), "echo \"a b\" \"x\\\"y\"");
}

#[test]
fn source_identity_prefers_the_declared_source() {
    assert_eq!(source_from_environment(Some(" abc \n"), Some("def")), Some("abc".to_owned()));
    assert_eq!(source_from_environment(Some("   "), Some(" def")), Some("def".to_owned()));
    assert_eq!(source_from_environment(None, Some("")), None);
    assert_eq!(source_from_environment(None, None), None);
}

#[test]
fn run_url_needs_every_part() {
    assert_eq!(
        github_run_url(Some("https://github.com"), Some("eternalist/foundry"), Some("42")),
        Some("https://github.com/eternalist/foundry/actions/runs/42".to_owned())
    );
    assert_eq!(github_run_url(Some("https://github.com"), None, Some("42")), None);
}

#[test]
fn judge_demands_the_complete_planned_receipt_graph() {
    let contract = library();
    let plan = Plan::forge(&contract).expect("forge plan");
    let cells: Vec<String> = plan.nodes.iter().map(|n| n.id.clone()).collect();
    let evidence = evidence_for(&contract, &plan, "abc");
    let judgment = Adjudication::judge(library(), "abc".to_owned(), &cells, evidence).expect("complete evidence");
    assert_eq!(judgment.receipts.len(), plan.nodes.len());

    let manifest = judgment.support(
        &CargoPackage { name: "specimen".to_owned(), version: "1.2.3".to_owned(), repository: None },
        github_tag(Some("tag"), Some("v1.2.3".to_owned())),
    );
    assert_eq!(manifest.schema, SUPPORT_SCHEMA);
    assert_eq!(manifest.product.version, "1.2.3");
    assert_eq!(manifest.source.commit, "abc");
    assert_eq!(manifest.source.tag.as_deref(), Some("v1.2.3"));
    assert_eq!(manifest.release_tested.len(), 4);
    assert_eq!(manifest.release_tested[0].coordinate, Coordinate::LinuxX86_64);
    assert_eq!(manifest.release_tested[0].proofs.len(), 1);
    assert_eq!(manifest.release_tested[0].proofs[0].node, "host--linux-x86_64");
    assert_eq!(manifest.global_proofs.len(), 1);
    assert_eq!(manifest.artifacts.len(), 1);
    assert_eq!(manifest.artifacts[0].node, "host--linux-x86_64");
    assert_eq!(manifest.artifacts[0].artifact.path, "a");
}

#[test]
fn judge_refuses_every_departure_from_the_plan() {
    let contract = library();
    let plan = Plan::forge(&contract).expect("forge plan");
    let cells: Vec<String> = plan.nodes.iter().map(|n| n.id.clone()).collect();

    let mut alien = cells.clone();
    alien.push("stray--global".to_owned());
    let err = Adjudication::judge(library(), "abc".to_owned(), &alien, evidence_for(&contract, &plan, "abc"))
        .err()
        .expect("alien cell");
    assert!(matches!(err, Error::UnplannedCell(n) if n == "stray--global"));

    let err = Adjudication::judge(library(), "def".to_owned(), &cells, evidence_for(&contract, &plan, "abc"))
        .err()
        .expect("stale source");
    assert!(matches!(err, Error::ReceiptSourceMismatch(node, found, expected) if node == "source--global" && found == "abc" && expected == "def"));

    let mut short = evidence_for(&contract, &plan, "abc");
    short.pop();
    let err = Adjudication::judge(library(), "abc".to_owned(), &cells, short).err().expect("missing receipt");
    assert!(matches!(err, Error::MissingEvidence(n) if n == "host--windows-x86_64"));

    let mut failed = evidence_for(&contract, &plan, "abc");
    failed[1].receipt.success = false;
    let err = Adjudication::judge(library(), "abc".to_owned(), &cells, failed).err().expect("failed proof");
    assert!(matches!(err, Error::FailedProof(n) if n == "host--linux-x86_64"));

    let mut stale = evidence_for(&contract, &plan, "abc");
    stale[2].receipt.command.push("--extra".to_owned());
    let err = Adjudication::judge(library(), "abc".to_owned(), &cells, stale).err().expect("stale command");
    assert!(matches!(err, Error::ReceiptMismatch(n) if n == "host--macos-aarch64"));

    let mut foreign = evidence_for(&contract, &plan, "abc");
    foreign[4].receipt.host.os = "linux".to_owned();
    let err = Adjudication::judge(library(), "abc".to_owned(), &cells, foreign).err().expect("foreign host");
    assert!(matches!(err, Error::ForeignHost(Coordinate::WindowsX86_64, _, _)));

    let mut old = evidence_for(&contract, &plan, "abc");
    old[0].receipt.schema = 1;
    let err = Adjudication::judge(library(), "abc".to_owned(), &cells, old).err().expect("old schema");
    assert!(matches!(err, Error::ReceiptSchema(n, 1) if n == "source--global"));

    let mut extra = evidence_for(&contract, &plan, "abc");
    extra.push(extra[0].clone());
    let err = Adjudication::judge(library(), "abc".to_owned(), &cells, extra).err().expect("surplus");
    assert!(matches!(err, Error::SurplusEvidence(6)));

    let mut elided = evidence_for(&contract, &plan, "abc");
    elided[1].inventory = None;
    let err = Adjudication::judge(library(), "abc".to_owned(), &cells, elided).err().expect("absent artifacts");
    assert!(matches!(err, Error::AbsentArtifactDirectory(n) if n == "host--linux-x86_64"));
}

#[test]
fn package_metadata_must_name_the_package_once() {
    let pkg = |name: &str| CargoPackage { name: name.to_owned(), version: "0.1.0".to_owned(), repository: None };
    assert_eq!(select_package(vec![pkg("a"), pkg("b")], "b").expect("one").name, "b");
    assert!(matches!(select_package(vec![pkg("a")], "b"), Err(Error::MissingPackage(n)) if n == "b"));
    assert!(matches!(select_package(vec![pkg("b"), pkg("b")], "b"), Err(Error::DuplicatePackage(_))));
}

#[test]
fn tags_and_ledger_paths() {
    assert_eq!(github_tag(Some("branch"), Some("main".to_owned())), None);
    assert_eq!(github_tag(None, Some("v1".to_owned())), None);
    assert_eq!(support_path("evidence"), "evidence/support.json");
    assert_eq!(support_path("evidence/"), "evidence/support.json");
    assert_eq!(support_path(""), "support.json");
}

#[test]
fn locate_checks_node_proof_host_then_command() {
    let plan = Plan::forge(&library()).expect("forge plan");
    let mut bare = library();
    for proof in bare.proofs.iter_mut() {
        proof.run.clear();
    }
    assert!(matches!(
        locate(&bare, &plan, "host", Some(Coordinate::WindowsX86_64), "linux", "x86_64"),
        Err(Error::ForeignHost(Coordinate::WindowsX86_64, _, _))
    ));
    assert!(matches!(
        locate(&bare, &plan, "host", Some(Coordinate::LinuxX86_64), "linux", "x86_64"),
        Err(Error::EmptyCommand(n)) if n == "host"
    ));
    let mut missing = library();
    missing.proofs.retain(|proof| proof.name != "host");
    assert!(matches!(
        locate(&missing, &plan, "host", Some(Coordinate::LinuxX86_64), "linux", "x86_64"),
        Err(Error::UnknownProof(n)) if n == "host"
    ));
}

#[test]
fn judge_names_the_first_failing_node_and_check() {
    let contract = library();
    let plan = Plan::forge(&contract).expect("forge plan");
    let cells: Vec<String> = plan.nodes.iter().map(|n| n.id.clone()).collect();

    let mut twice = evidence_for(&contract, &plan, "abc");
    twice[3].receipt.success = false;
    twice[1].receipt.success = false;
    let err = Adjudication::judge(library(), "abc".to_owned(), &cells, twice).err().expect("failed proofs");
    assert!(matches!(err, Error::FailedProof(n) if n == "host--linux-x86_64"));

    let mut both = evidence_for(&contract, &plan, "abc");
    both[1].receipt.success = false;
    both[1].receipt.source = "old".to_owned();
    let err = Adjudication::judge(library(), "abc".to_owned(), &cells, both).err().expect("stale and failed");
    assert!(matches!(err, Error::ReceiptSourceMismatch(n, _, _) if n == "host--linux-x86_64"));

    let mut aliens = cells.clone();
    aliens.insert(0, "first--global".to_owned());
    aliens.push("second--global".to_owned());
    let err = Adjudication::judge(library(), "abc".to_owned(), &aliens, evidence_for(&contract, &plan, "abc"))
        .err()
        .expect("alien cells");
    assert!(matches!(err, Error::UnplannedCell(n) if n == "first--global"));
}
