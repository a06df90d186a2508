// Scenarios over two complete contracts: a Rust library and a native GUI product.

use eternalist_foundry::contract::{
    Contract, Coordinate, Coordinates, Delivery, DeliveryPolicy, Exclusion, Law, Product, Profile,
    Proof, Trust, TrustPolicy, SCHEMA,
};
use eternalist_foundry::plan::Plan;

fn make_proof(name: &str, laws: &[Law], coordinates: &[Coordinate]) -> Proof {
    Proof {
        name: name.to_owned(),
        laws: laws.to_vec(),
        run: vec!["cargo".to_owned(), "xtask".to_owned(), name.to_owned()],
        coordinates: coordinates.to_vec(),
        timeout_minutes: 45,
        setup: None,
    }
}

fn library() -> Contract {
    let all = [
        Coordinate::LinuxX86_64,
        Coordinate::MacosAarch64,
        Coordinate::MacosX86_64,
        Coordinate::WindowsX86_64,
    ];
    Contract {
        schema: SCHEMA,
        product: Product {
            name: "specimen".to_owned(),
            package: "specimen".to_owned(),
            binary: None,
            identifier: None,
            profile: Profile::RustLibrary,
        },
        coordinates: Coordinates { release_tested: all.to_vec(), supported: Vec::new() },
        exclusions: Vec::new(),
        delivery: DeliveryPolicy { linux: None, macos: None, windows: None },
        trust: TrustPolicy { macos: None, windows: None },
        proofs: vec![
            make_proof("source", &[Law::Source], &[]),
            make_proof("security", &[Law::Security], &[]),
            make_proof("package", &[Law::SourcePackage], &[]),
            make_proof("host", &[Law::Host], &all),
        ],
    }
}

fn native_gui() -> Contract {
    let all = [
        Coordinate::LinuxX86_64X11Vulkan,
        Coordinate::LinuxX86_64WaylandVulkan,
        Coordinate::MacosAarch64Metal,
        Coordinate::MacosX86_64Metal,
        Coordinate::WindowsX86_64Dx12,
    ];
    Contract {
        schema: SCHEMA,
        product: Product {
            name: "Specimen".to_owned(),
            package: "specimen".to_owned(),
            binary: Some("specimen".to_owned()),
            identifier: Some("dev.eternalist.specimen".to_owned()),
            profile: Profile::NativeGui,
        },
        coordinates: Coordinates { release_tested: all.to_vec(), supported: Vec::new() },
        exclusions: Vec::new(),
        delivery: DeliveryPolicy {
            linux: Some(Delivery::GithubArchive),
            macos: Some(Delivery::Dmg),
            windows: Some(Delivery::NsisCurrentUser),
        },
        trust: TrustPolicy { macos: Some(Trust::Notarized), windows: Some(Trust::Signed) },
        proofs: vec![
            make_proof("source", &[Law::Source], &[]),
            make_proof("security", &[Law::Security], &[]),
            make_proof("package", &[Law::SourcePackage], &[]),
            make_proof("native", &[Law::Host, Law::FirstPresent, Law::Lifecycle], &all),
            make_proof("x11-acceptance", &[Law::NativeAcceptance], &[Coordinate::LinuxX86_64X11Vulkan]),
            make_proof("artifact-linux", &[Law::Artifact], &[Coordinate::LinuxX86_64X11Vulkan]),
            make_proof("artifact-macos", &[Law::Artifact], &[Coordinate::MacosAarch64Metal]),
            make_proof("artifact-windows", &[Law::Artifact], &[Coordinate::WindowsX86_64Dx12]),
        ],
    }
}

#[test]
fn one_universal_artifact_proof_covers_the_macos_delivery() {
    let contract = native_gui();
    contract.validate().expect("validate native GUI fixture");
    let artifact = contract.proof_named("artifact-macos").expect("macOS artifact proof");
    assert_eq!(artifact.coordinates, [Coordinate::MacosAarch64Metal]);
    assert!(contract.coordinates.release_tested.contains(&Coordinate::MacosX86_64Metal));
}

#[test]
fn one_proof_expands_across_its_coordinates() {
    let contract = library();
    contract.validate().expect("validate fixture");
    let plan = Plan::forge(&contract).expect("forge plan");
    assert!(plan.node("host--windows-x86_64").is_some());
    assert_eq!(plan.nodes.len(), 7);
}

#[test]
fn valid_contracts_forge_their_plans() {
    for contract in [library(), native_gui()] {
        contract.validate().expect("valid contract");
        let plan = Plan::forge(&contract).expect("a valid contract always plans");
        for node in &plan.nodes {
            assert_eq!(node.id, eternalist_foundry::receipt::node_id(&node.proof, node.coordinate));
        }
    }
}

#[test]
fn native_gui_plan_places_display_setups() {
    let contract = native_gui();
    let plan = Plan::forge(&contract).expect("forge plan");
    let x11 = plan.node("native--linux-x86_64-x11-vulkan").expect("x11 node");
    assert_eq!(x11.setup, eternalist_foundry::contract::Setup::X11);
    assert_eq!(x11.runner, "ubuntu-24.04");
    assert_eq!(x11.target.as_deref(), Some("x86_64-unknown-linux-gnu"));
    assert_eq!(x11.name, "native · linux-x86_64-x11-vulkan");
    let wayland = plan.node("native--linux-x86_64-wayland-vulkan").expect("wayland node");
    assert_eq!(wayland.setup, eternalist_foundry::contract::Setup::Wayland);
    let mac = plan.node("native--macos-x86_64-metal").expect("mac node");
    assert_eq!(mac.setup, eternalist_foundry::contract::Setup::Ordinary);
    assert_eq!(mac.runner, "macos-15-intel");
    let global = plan.node("source--global").expect("global node");
    assert_eq!(global.coordinate, None);
    assert_eq!(global.target, None);
    assert_eq!(global.runner, "ubuntu-24.04");
    assert_eq!(global.timeout_minutes, 45);
    assert_eq!(plan.nodes.len(), 3 + 5 + 1 + 3);
    assert_eq!(plan.github_matrix().entries.len(), plan.nodes.len());
}

#[test]
fn excluded_baseline_is_still_covered() {
    let mut contract = library();
    contract.coordinates.release_tested = vec![Coordinate::LinuxX86_64, Coordinate::MacosAarch64];
    contract.coordinates.supported = vec![Coordinate::MacosX86_64];
    contract.exclusions = vec![Exclusion {
        coordinate: Coordinate::WindowsX86_64,
        reason: "no Windows maintainer yet".to_owned(),
    }];
    contract.proofs[3].coordinates =
        vec![Coordinate::LinuxX86_64, Coordinate::MacosAarch64, Coordinate::MacosX86_64];
    contract.validate().expect("every baseline coordinate is carried or excluded");
}
