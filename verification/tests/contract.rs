use eternalist_foundry::contract::{
    workspace_of, Contract, Coordinate, Coordinates, Delivery, DeliveryPolicy, Exclusion, Law,
    Platform, Product, Profile, Proof, Setup, Trust, TrustPolicy, SCHEMA,
};
use eternalist_foundry::error::{Error, ProductField};
use eternalist_foundry::text::{is_blank, trimmed_byte_len, valid_slug};

fn make_proof(name: &str, laws: &[Law], coordinates: &[Coordinate]) -> Proof {
    Proof {
        name: name.to_owned(),
        laws: laws.to_vec(),
        run: vec!["cargo".to_owned(), "test".to_owned()],
        coordinates: coordinates.to_vec(),
        timeout_minutes: 45,
        setup: None,
    }
}

fn cli() -> Contract {
    let all = [
        Coordinate::LinuxX86_64,
        Coordinate::MacosAarch64,
        Coordinate::MacosX86_64,
        Coordinate::WindowsX86_64,
    ];
    Contract {
        schema: SCHEMA,
        product: Product {
            name: "tool".to_owned(),
            package: "tool".to_owned(),
            binary: Some("tool".to_owned()),
            identifier: None,
            profile: Profile::PortableCli,
        },
        coordinates: Coordinates { release_tested: all.to_vec(), supported: Vec::new() },
        exclusions: Vec::new(),
        delivery: DeliveryPolicy {
            linux: Some(Delivery::Cargo),
            macos: Some(Delivery::Cargo),
            windows: Some(Delivery::Cargo),
        },
        trust: TrustPolicy { macos: Some(Trust::UnsignedIncubation), windows: Some(Trust::UnsignedIncubation) },
        proofs: vec![
            make_proof("source", &[Law::Source, Law::Security, Law::SourcePackage], &[]),
            make_proof("host", &[Law::Host, Law::Lifecycle], &all),
        ],
    }
}

const ALL: [Coordinate; 9] = [
    Coordinate::LinuxX86_64X11Vulkan,
    Coordinate::LinuxX86_64WaylandVulkan,
    Coordinate::MacosAarch64Metal,
    Coordinate::MacosX86_64Metal,
    Coordinate::WindowsX86_64Dx12,
    Coordinate::LinuxX86_64,
    Coordinate::MacosAarch64,
    Coordinate::MacosX86_64,
    Coordinate::WindowsX86_64,
];

#[test]
fn every_coordinate_round_trips_through_its_name() {
    let profiles = [Profile::NativeGui, Profile::PortableCli, Profile::RustLibrary];
    let mut coordinates: Vec<Coordinate> = Vec::new();
    for profile in profiles {
        for coordinate in profile.baseline() {
            if !coordinates.contains(&coordinate) {
                coordinates.push(coordinate);
            }
        }
    }
    for coordinate in coordinates {
        assert_eq!(
            coordinate.name().parse::<Coordinate>().expect("parse coordinate"),
            coordinate
        );
    }
}

#[test]
fn slug_rejects_ambiguous_separators() {
    assert!(valid_slug("native-host-2"));
    for alien in ["", "Native", "native_host", "native--host", "native-"] {
        assert!(!valid_slug(alien), "accepted {alien}");
    }
}

#[test]
fn slug_rejects_a_leading_hyphen_and_non_ascii() {
    assert!(!valid_slug("-native"));
    assert!(!valid_slug("nätive"));
    assert!(valid_slug("a"));
    assert!(valid_slug("0-1"));
}

#[test]
fn unknown_names_name_no_coordinate() {
    assert_eq!(Coordinate::from_name("linux"), None);
    assert_eq!(Coordinate::from_name("Linux-x86_64"), None);
    assert_eq!(Coordinate::from_name(""), None);
    assert!(matches!("macos".parse::<Coordinate>(), Err(Error::UnknownCoordinate(v)) if v == "macos"));
}

#[test]
fn coordinate_facts_are_exact() {
    assert_eq!(Coordinate::MacosAarch64Metal.platform(), Platform::Macos);
    assert_eq!(Coordinate::MacosAarch64Metal.os(), "macos");
    assert_eq!(Coordinate::MacosAarch64Metal.arch(), "aarch64");
    assert_eq!(Coordinate::MacosAarch64Metal.runner(), "macos-15");
    assert_eq!(Coordinate::MacosAarch64Metal.target_triple(), "aarch64-apple-darwin");
    assert_eq!(Coordinate::WindowsX86_64.runner(), "windows-2025");
    assert_eq!(Coordinate::WindowsX86_64.target_triple(), "x86_64-pc-windows-msvc");
    assert_eq!(Coordinate::LinuxX86_64.runner(), "ubuntu-24.04");
    assert_eq!(Coordinate::LinuxX86_64.display(), None);
    assert!(Coordinate::LinuxX86_64.inhabits("linux", "x86_64"));
    assert!(!Coordinate::LinuxX86_64.inhabits("linux", "aarch64"));
    assert!(!Coordinate::MacosX86_64.inhabits("windows", "x86_64"));
    for c in ALL {
        assert_eq!(Coordinate::from_name(c.name()), Some(c));
    }
    assert_eq!(Profile::PlatformBound.baseline(), Vec::<Coordinate>::new());
    assert_eq!(Profile::NativeGui.name(), "native-gui");
    assert_eq!(Delivery::NsisCurrentUser.name(), "nsis-current-user");
    assert_eq!(Law::SourcePackage.name(), "source-package");
    assert_eq!(Setup::Wayland.name(), "wayland");
    assert_eq!(Platform::Windows.name(), "windows");
    assert!(!Delivery::Cargo.produces_artifact());
    assert!(Delivery::Dmg.produces_artifact());
}

#[test]
fn policies_answer_per_platform() {
    let contract = cli();
    assert_eq!(contract.trust.for_platform(Platform::Linux), Some(Trust::NotApplicable));
    assert_eq!(contract.delivery.for_platform(Platform::Windows), Some(Delivery::Cargo));
    assert_eq!(
        contract.release_platforms(),
        vec![Platform::Linux, Platform::Macos, Platform::Windows]
    );
    assert_eq!(contract.carried_coordinates().len(), 4);
    assert_eq!(contract.release_coordinates(), contract.coordinates.release_tested);
    assert!(contract.proof_named("nope").is_none());
    assert_eq!(eternalist_foundry::contract::default_timeout(), 45);
}

#[test]
fn setup_follows_display_laws() {
    let display = make_proof("life", &[Law::Lifecycle], &[Coordinate::LinuxX86_64X11Vulkan]);
    assert_eq!(display.setup(Some(Coordinate::LinuxX86_64X11Vulkan)), Setup::X11);
    assert_eq!(display.setup(Some(Coordinate::MacosX86_64Metal)), Setup::Ordinary);
    assert_eq!(display.setup(None), Setup::Ordinary);
    let host = make_proof("host", &[Law::Host], &[Coordinate::LinuxX86_64X11Vulkan]);
    assert_eq!(host.setup(Some(Coordinate::LinuxX86_64X11Vulkan)), Setup::Ordinary);
}

#[test]
fn generic_linux_proofs_may_declare_a_display_setup() {
    let mut integration = make_proof("integration", &[Law::Host], &[Coordinate::LinuxX86_64, Coordinate::MacosX86_64]);
    integration.setup = Some(Setup::Wayland);
    assert_eq!(integration.setup(Some(Coordinate::LinuxX86_64)), Setup::Wayland);
    assert_eq!(integration.setup(Some(Coordinate::MacosX86_64)), Setup::Ordinary);
    assert_eq!(integration.setup(None), Setup::Ordinary);
    assert_eq!(integration.setup(Some(Coordinate::LinuxX86_64X11Vulkan)), Setup::Ordinary);
}

#[test]
fn valid_cli_contract_is_accepted() {
    cli().validate().expect("valid contract");
}

fn refusal(contract: Contract) -> Error {
    contract.validate().expect_err("invalid contract")
}

#[test]
fn every_contract_defect_is_named() {
    let mut c = cli();
    c.schema = 7;
    assert!(matches!(refusal(c), Error::UnsupportedSchema(7)));

    let mut c = cli();
    c.product.name = "  \t".to_owned();
    assert!(matches!(refusal(c), Error::EmptyProductField(ProductField::Name)));

    let mut c = cli();
    c.product.package = String::new();
    assert!(matches!(refusal(c), Error::EmptyProductField(ProductField::Package)));

    let mut c = cli();
    c.product.binary = None;
    assert!(matches!(refusal(c), Error::MissingBinary(Profile::PortableCli)));

    let mut c = cli();
    c.coordinates.release_tested = Vec::new();
    assert!(matches!(refusal(c), Error::EmptyReleaseTested));

    let mut c = cli();
    c.coordinates.release_tested.push(Coordinate::LinuxX86_64);
    assert!(matches!(refusal(c), Error::DuplicateReleaseTested(Coordinate::LinuxX86_64)));

    let mut c = cli();
    c.coordinates.supported = vec![Coordinate::MacosX86_64Metal, Coordinate::MacosX86_64Metal];
    assert!(matches!(refusal(c), Error::DuplicateSupported(Coordinate::MacosX86_64Metal)));

    let mut c = cli();
    c.coordinates.supported = vec![Coordinate::WindowsX86_64];
    assert!(matches!(refusal(c), Error::ReleaseTestedAlsoSupported(Coordinate::WindowsX86_64)));

    let mut c = cli();
    c.exclusions = vec![Exclusion { coordinate: Coordinate::LinuxX86_64, reason: "a concrete reason".to_owned() }];
    assert!(matches!(refusal(c), Error::CarriedAlsoExcluded(Coordinate::LinuxX86_64)));

    let mut c = cli();
    c.coordinates.release_tested.pop();
    c.exclusions = vec![Exclusion { coordinate: Coordinate::WindowsX86_64, reason: "   too short   ".to_owned() }];
    assert!(matches!(refusal(c), Error::VagueExclusion(Coordinate::WindowsX86_64)));

    let mut c = cli();
    c.coordinates.release_tested.pop();
    let e = Exclusion { coordinate: Coordinate::WindowsX86_64, reason: "a concrete reason".to_owned() };
    c.exclusions = vec![e.clone(), e];
    assert!(matches!(refusal(c), Error::DuplicateExclusion(Coordinate::WindowsX86_64)));

    let mut c = cli();
    c.coordinates.release_tested.pop();
    assert!(matches!(refusal(c), Error::UncoveredBaseline(Coordinate::WindowsX86_64)));

    let mut c = cli();
    c.coordinates.supported = vec![Coordinate::LinuxX86_64X11Vulkan];
    assert!(matches!(refusal(c), Error::ForeignCoordinate(Coordinate::LinuxX86_64X11Vulkan, Profile::PortableCli)));

    let mut c = cli();
    c.delivery.macos = None;
    assert!(matches!(refusal(c), Error::MissingDelivery(Platform::Macos)));

    let mut c = cli();
    c.delivery.linux = Some(Delivery::Dmg);
    assert!(matches!(refusal(c), Error::DeliveryCannotInhabit(Delivery::Dmg, Platform::Linux)));

    let mut c = cli();
    c.trust.windows = None;
    assert!(matches!(refusal(c), Error::MissingTrust(Platform::Windows)));

    let mut c = cli();
    c.proofs = Vec::new();
    assert!(matches!(refusal(c), Error::EmptyProofList));

    let mut c = cli();
    c.proofs.push(make_proof("host", &[Law::Host], &[Coordinate::LinuxX86_64]));
    assert!(matches!(refusal(c), Error::DuplicateProofName(n) if n == "host"));
}

#[test]
fn every_proof_defect_is_named() {
    let mut c = cli();
    c.proofs[1].name = "Host".to_owned();
    assert!(matches!(refusal(c), Error::InvalidProofName(n) if n == "Host"));

    let mut c = cli();
    c.proofs[1].laws = Vec::new();
    assert!(matches!(refusal(c), Error::ProofWithoutLaws(n) if n == "host"));

    let mut c = cli();
    c.proofs[1].laws = vec![Law::Host, Law::Host];
    assert!(matches!(refusal(c), Error::DuplicateLaw(n, Law::Host) if n == "host"));

    let mut c = cli();
    c.proofs[1].run = vec!["cargo".to_owned(), String::new()];
    assert!(matches!(refusal(c), Error::EmptyCommand(n) if n == "host"));

    let mut c = cli();
    c.proofs[1].coordinates.push(Coordinate::LinuxX86_64);
    assert!(matches!(refusal(c), Error::DuplicateProofCoordinate(n, Coordinate::LinuxX86_64) if n == "host"));

    let mut c = cli();
    c.proofs[1].timeout_minutes = 361;
    assert!(matches!(refusal(c), Error::TimeoutOutOfRange(n, 361) if n == "host"));

    let mut c = cli();
    c.proofs[1].timeout_minutes = 0;
    assert!(matches!(refusal(c), Error::TimeoutOutOfRange(n, 0) if n == "host"));

    let mut c = cli();
    c.proofs[1].laws = vec![Law::Host, Law::Source];
    assert!(matches!(refusal(c), Error::MixedLaws(n) if n == "host"));

    let mut c = cli();
    c.proofs[0].coordinates = vec![Coordinate::LinuxX86_64];
    assert!(matches!(refusal(c), Error::GlobalProofWithCoordinates(n) if n == "source"));

    let mut c = cli();
    c.proofs[1].coordinates = Vec::new();
    assert!(matches!(refusal(c), Error::CoordinateProofWithoutCoordinates(n) if n == "host"));

    let mut c = cli();
    c.proofs[1].coordinates.push(Coordinate::LinuxX86_64X11Vulkan);
    assert!(matches!(refusal(c), Error::UncarriedProofCoordinate(n, Coordinate::LinuxX86_64X11Vulkan) if n == "host"));
}

#[test]
fn every_missing_obligation_is_named() {
    let mut c = cli();
    c.proofs[0].laws = vec![Law::Security, Law::SourcePackage];
    assert!(matches!(refusal(c), Error::NoGlobalProof(Law::Source)));

    let mut c = cli();
    c.proofs[0].laws = vec![Law::Source, Law::Security];
    assert!(matches!(refusal(c), Error::NoGlobalProof(Law::SourcePackage)));

    let mut c = cli();
    c.proofs[1].laws = vec![Law::Host];
    assert!(matches!(refusal(c), Error::NoCoordinateProof(Coordinate::LinuxX86_64, Law::Lifecycle)));

    let mut c = cli();
    c.delivery.linux = Some(Delivery::DistShell);
    assert!(matches!(refusal(c), Error::MissingArtifactProof(Delivery::DistShell, Platform::Linux)));
}

#[test]
fn platform_bound_products_need_no_baseline_or_package_proof() {
    let mut c = cli();
    c.product.profile = Profile::PlatformBound;
    c.coordinates.release_tested = vec![Coordinate::LinuxX86_64X11Vulkan];
    c.proofs[0].laws = vec![Law::Source, Law::Security];
    c.proofs[1].coordinates = vec![Coordinate::LinuxX86_64X11Vulkan];
    c.validate().expect("platform-bound contract");
}

#[test]
fn text_helpers_trim_unicode_white_space() {
    assert!(is_blank(" \u{3000}\n"));
    assert!(!is_blank(" x "));
    assert_eq!(trimmed_byte_len("  twelve bytes  "), 12);
    assert_eq!(trimmed_byte_len("\u{a0}é\u{a0}"), 2);
}

#[test]
fn workspace_of_a_bare_contract_is_the_current_directory() {
    assert_eq!(workspace_of("foundry.toml"), ".");
    assert_eq!(workspace_of(""), ".");
    assert_eq!(workspace_of("product/foundry.toml"), "product");
    assert_eq!(workspace_of("/foundry.toml"), "/");
}

#[test]
fn shared_and_foreign_coordinates_are_named_in_declared_order() {
    let mut c = cli();
    c.coordinates.release_tested = vec![Coordinate::MacosAarch64, Coordinate::LinuxX86_64];
    c.coordinates.supported = vec![Coordinate::LinuxX86_64, Coordinate::MacosAarch64];
    assert!(matches!(refusal(c), Error::ReleaseTestedAlsoSupported(Coordinate::LinuxX86_64)));

    let mut c = cli();
    c.coordinates.supported = vec![Coordinate::WindowsX86_64Dx12, Coordinate::MacosAarch64Metal];
    assert!(matches!(refusal(c), Error::ForeignCoordinate(Coordinate::MacosAarch64Metal, Profile::PortableCli)));
}

#[test]
fn validation_names_the_first_defect_in_order() {
    let mut c = cli();
    c.coordinates.release_tested = vec![
        Coordinate::MacosAarch64,
        Coordinate::LinuxX86_64,
        Coordinate::MacosAarch64,
        Coordinate::LinuxX86_64,
    ];
    c.coordinates.supported = vec![Coordinate::WindowsX86_64, Coordinate::WindowsX86_64];
    assert!(matches!(refusal(c), Error::DuplicateReleaseTested(Coordinate::MacosAarch64)));

    let mut c = cli();
    c.proofs[1].timeout_minutes = 0;
    c.proofs[0].run.clear();
    assert!(matches!(refusal(c), Error::EmptyCommand(n) if n == "source"));

    let mut c = cli();
    c.proofs[1].laws = vec![Law::Host];
    assert!(matches!(refusal(c), Error::NoCoordinateProof(Coordinate::LinuxX86_64, Law::Lifecycle)));
}
