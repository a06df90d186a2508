//! The product contract: coordinates, profiles, delivery, trust, proofs and laws.

use vstd::prelude::*;

use crate::error::{Error, ProductField};
use crate::text::{byte_len, is_blank, is_slug, same_text, trimmed, trimmed_byte_len, valid_slug};

verus! {

/// A closed baseline coordinate: platform, architecture and, for native GUI
/// products, the graphics substrate.
#[derive(Clone, Copy, Debug, PartialEq, Eq, Structural)]
pub enum Coordinate {
    LinuxX86_64X11Vulkan,
    LinuxX86_64WaylandVulkan,
    MacosAarch64Metal,
    MacosX86_64Metal,
    WindowsX86_64Dx12,
    LinuxX86_64,
    MacosAarch64,
    MacosX86_64,
    WindowsX86_64,
}

/// The operating-system family of a coordinate.
#[derive(Clone, Copy, Debug, PartialEq, Eq, Structural)]
pub enum Platform {
    Linux,
    Macos,
    Windows,
}

/// The display server that a Linux GUI coordinate runs under.
#[derive(Clone, Copy, Debug, PartialEq, Eq, Structural)]
pub enum DisplayBackend {
    X11,
    Wayland,
}

pub open spec fn coordinate_name(c: Coordinate) -> Seq<char> {
    match c {
        Coordinate::LinuxX86_64X11Vulkan => "linux-x86_64-x11-vulkan"@,
        Coordinate::LinuxX86_64WaylandVulkan => "linux-x86_64-wayland-vulkan"@,
        Coordinate::MacosAarch64Metal => "macos-aarch64-metal"@,
        Coordinate::MacosX86_64Metal => "macos-x86_64-metal"@,
        Coordinate::WindowsX86_64Dx12 => "windows-x86_64-dx12"@,
        Coordinate::LinuxX86_64 => "linux-x86_64"@,
        Coordinate::MacosAarch64 => "macos-aarch64"@,
        Coordinate::MacosX86_64 => "macos-x86_64"@,
        Coordinate::WindowsX86_64 => "windows-x86_64"@,
    }
}

pub open spec fn coordinate_platform(c: Coordinate) -> Platform {
    match c {
        Coordinate::LinuxX86_64X11Vulkan
        | Coordinate::LinuxX86_64WaylandVulkan
        | Coordinate::LinuxX86_64 => Platform::Linux,
        Coordinate::MacosAarch64Metal
        | Coordinate::MacosX86_64Metal
        | Coordinate::MacosAarch64
        | Coordinate::MacosX86_64 => Platform::Macos,
        Coordinate::WindowsX86_64Dx12 | Coordinate::WindowsX86_64 => Platform::Windows,
    }
}

impl Coordinate {
    /// The platform the coordinate belongs to.
    pub fn platform(self) -> (r: Platform)
        ensures
            r == coordinate_platform(self),
    {
        match self {
            Coordinate::LinuxX86_64X11Vulkan
            | Coordinate::LinuxX86_64WaylandVulkan
            | Coordinate::LinuxX86_64 => Platform::Linux,
            Coordinate::MacosAarch64Metal
            | Coordinate::MacosX86_64Metal
            | Coordinate::MacosAarch64
            | Coordinate::MacosX86_64 => Platform::Macos,
            Coordinate::WindowsX86_64Dx12 | Coordinate::WindowsX86_64 => Platform::Windows,
        }
    }

    /// The canonical name of the coordinate.
    pub fn name(self) -> (r: &'static str)
        ensures
            r@ == coordinate_name(self),
    {
        match self {
            Coordinate::LinuxX86_64X11Vulkan => "linux-x86_64-x11-vulkan",
            Coordinate::LinuxX86_64WaylandVulkan => "linux-x86_64-wayland-vulkan",
            Coordinate::MacosAarch64Metal => "macos-aarch64-metal",
            Coordinate::MacosX86_64Metal => "macos-x86_64-metal",
            Coordinate::WindowsX86_64Dx12 => "windows-x86_64-dx12",
            Coordinate::LinuxX86_64 => "linux-x86_64",
            Coordinate::MacosAarch64 => "macos-aarch64",
            Coordinate::MacosX86_64 => "macos-x86_64",
            Coordinate::WindowsX86_64 => "windows-x86_64",
        }
    }

    /// The coordinate whose canonical name is `value`, if any.
    pub fn from_name(value: &str) -> (r: Option<Coordinate>)
        ensures
            match r {
                Some(c) => coordinate_name(c) == value@,
                None => forall|c: Coordinate| coordinate_name(c) != value@,
            },
    {
        if same_text(value, Coordinate::LinuxX86_64X11Vulkan.name()) {
            Some(Coordinate::LinuxX86_64X11Vulkan)
        } else if same_text(value, Coordinate::LinuxX86_64WaylandVulkan.name()) {
            Some(Coordinate::LinuxX86_64WaylandVulkan)
        } else if same_text(value, Coordinate::MacosAarch64Metal.name()) {
            Some(Coordinate::MacosAarch64Metal)
        } else if same_text(value, Coordinate::MacosX86_64Metal.name()) {
            Some(Coordinate::MacosX86_64Metal)
        } else if same_text(value, Coordinate::WindowsX86_64Dx12.name()) {
            Some(Coordinate::WindowsX86_64Dx12)
        } else if same_text(value, Coordinate::LinuxX86_64.name()) {
            Some(Coordinate::LinuxX86_64)
        } else if same_text(value, Coordinate::MacosAarch64.name()) {
            Some(Coordinate::MacosAarch64)
        } else if same_text(value, Coordinate::MacosX86_64.name()) {
            Some(Coordinate::MacosX86_64)
        } else if same_text(value, Coordinate::WindowsX86_64.name()) {
            Some(Coordinate::WindowsX86_64)
        } else {
            None
        }
    }
}


/// The place of a coordinate in the declared order of the closed set, which is the
/// order that `Ord` gives coordinates.
pub open spec fn coordinate_rank(c: Coordinate) -> int {
    match c {
        Coordinate::LinuxX86_64X11Vulkan => 0,
        Coordinate::LinuxX86_64WaylandVulkan => 1,
        Coordinate::MacosAarch64Metal => 2,
        Coordinate::MacosX86_64Metal => 3,
        Coordinate::WindowsX86_64Dx12 => 4,
        Coordinate::LinuxX86_64 => 5,
        Coordinate::MacosAarch64 => 6,
        Coordinate::MacosX86_64 => 7,
        Coordinate::WindowsX86_64 => 8,
    }
}

/// Every coordinate, in declared order.
fn all_coordinates() -> (r: Vec<Coordinate>)
    ensures
        r@.len() == 9,
        forall|i: int| 0 <= i < 9 ==> coordinate_rank(#[trigger] r@[i]) == i,
        forall|c: Coordinate| r@[coordinate_rank(c)] == c,
{
    let r = vec![
        Coordinate::LinuxX86_64X11Vulkan,
        Coordinate::LinuxX86_64WaylandVulkan,
        Coordinate::MacosAarch64Metal,
        Coordinate::MacosX86_64Metal,
        Coordinate::WindowsX86_64Dx12,
        Coordinate::LinuxX86_64,
        Coordinate::MacosAarch64,
        Coordinate::MacosX86_64,
        Coordinate::WindowsX86_64,
    ];
    assert forall|c: Coordinate| r@[coordinate_rank(c)] == c by {
        match c {
            Coordinate::LinuxX86_64X11Vulkan => {},
            Coordinate::LinuxX86_64WaylandVulkan => {},
            Coordinate::MacosAarch64Metal => {},
            Coordinate::MacosX86_64Metal => {},
            Coordinate::WindowsX86_64Dx12 => {},
            Coordinate::LinuxX86_64 => {},
            Coordinate::MacosAarch64 => {},
            Coordinate::MacosX86_64 => {},
            Coordinate::WindowsX86_64 => {},
        }
    }
    r
}

/// The only contract schema this library reads.
pub const SCHEMA: u32 = 1;

/// The kind of product a contract describes; it fixes the baseline coordinates.
#[derive(Clone, Copy, Debug, PartialEq, Eq, Structural)]
pub enum Profile {
    NativeGui,
    PortableCli,
    RustLibrary,
    PlatformBound,
}

/// How a product reaches users of a platform.
#[derive(Clone, Copy, Debug, PartialEq, Eq, Structural)]
pub enum Delivery {
    Cargo,
    Dmg,
    NsisCurrentUser,
    DistShell,
    DistPowershell,
    GithubArchive,
}

/// The code-signing state of a delivery.
#[derive(Clone, Copy, Debug, PartialEq, Eq, Structural)]
pub enum Trust {
    NotApplicable,
    UnsignedIncubation,
    Signed,
    Notarized,
}

/// A closed law that a proof discharges.
#[derive(Clone, Copy, Debug, PartialEq, Eq, Structural)]
pub enum Law {
    Source,
    Security,
    SourcePackage,
    Host,
    FirstPresent,
    NativeAcceptance,
    Lifecycle,
    Artifact,
}

/// The host preparation that a proof node needs before it runs.
#[derive(Clone, Copy, Debug, PartialEq, Eq, Structural)]
pub enum Setup {
    Ordinary,
    X11,
    Wayland,
}

/// The product that a contract governs.
#[derive(Clone, Debug)]
pub struct Product {
    pub name: String,
    pub package: String,
    pub binary: Option<String>,
    pub identifier: Option<String>,
    pub profile: Profile,
}

/// The coordinates a product carries: release-tested ones and merely supported ones.
#[derive(Clone, Debug)]
pub struct Coordinates {
    pub release_tested: Vec<Coordinate>,
    pub supported: Vec<Coordinate>,
}

/// A baseline coordinate that the product deliberately does not carry.
#[derive(Clone, Debug)]
pub struct Exclusion {
    pub coordinate: Coordinate,
    pub reason: String,
}

/// The delivery chosen for each platform.
#[derive(Clone, Debug)]
pub struct DeliveryPolicy {
    pub linux: Option<Delivery>,
    pub macos: Option<Delivery>,
    pub windows: Option<Delivery>,
}

/// The trust state declared for each signing platform.
#[derive(Clone, Debug)]
pub struct TrustPolicy {
    pub macos: Option<Trust>,
    pub windows: Option<Trust>,
}

/// A product-owned proof command and the laws it discharges. A proof on a
/// generic Linux coordinate may declare the display setup it needs.
#[derive(Clone, Debug)]
pub struct Proof {
    pub name: String,
    pub laws: Vec<Law>,
    pub run: Vec<String>,
    pub coordinates: Vec<Coordinate>,
    pub timeout_minutes: u16,
    pub setup: Option<Setup>,
}

/// The product-owned evidence contract.
#[derive(Clone, Debug)]
pub struct Contract {
    pub schema: u32,
    pub product: Product,
    pub coordinates: Coordinates,
    pub exclusions: Vec<Exclusion>,
    pub delivery: DeliveryPolicy,
    pub trust: TrustPolicy,
    pub proofs: Vec<Proof>,
}

// ---------------------------------------------------------------------------
// The model: what each closed value means.

pub open spec fn coordinate_display(c: Coordinate) -> Option<DisplayBackend> {
    match c {
        Coordinate::LinuxX86_64X11Vulkan => Some(DisplayBackend::X11),
        Coordinate::LinuxX86_64WaylandVulkan => Some(DisplayBackend::Wayland),
        _ => None,
    }
}

pub open spec fn coordinate_os(c: Coordinate) -> Seq<char> {
    match coordinate_platform(c) {
        Platform::Linux => "linux"@,
        Platform::Macos => "macos"@,
        Platform::Windows => "windows"@,
    }
}

pub open spec fn coordinate_arch(c: Coordinate) -> Seq<char> {
    if c == Coordinate::MacosAarch64Metal || c == Coordinate::MacosAarch64 {
        "aarch64"@
    } else {
        "x86_64"@
    }
}

pub open spec fn baseline_of(p: Profile) -> Seq<Coordinate> {
    match p {
        Profile::NativeGui => seq![
            Coordinate::LinuxX86_64X11Vulkan,
            Coordinate::LinuxX86_64WaylandVulkan,
            Coordinate::MacosAarch64Metal,
            Coordinate::MacosX86_64Metal,
            Coordinate::WindowsX86_64Dx12,
        ],
        Profile::PortableCli | Profile::RustLibrary => seq![
            Coordinate::LinuxX86_64,
            Coordinate::MacosAarch64,
            Coordinate::MacosX86_64,
            Coordinate::WindowsX86_64,
        ],
        Profile::PlatformBound => seq![],
    }
}

pub open spec fn delivery_admits(d: Delivery, p: Platform) -> bool {
    match d {
        Delivery::Cargo | Delivery::GithubArchive => true,
        Delivery::Dmg => p == Platform::Macos,
        Delivery::NsisCurrentUser | Delivery::DistPowershell => p == Platform::Windows,
        Delivery::DistShell => p == Platform::Linux || p == Platform::Macos,
    }
}

pub open spec fn delivery_produces_artifact(d: Delivery) -> bool {
    d != Delivery::Cargo
}

pub open spec fn delivery_for(policy: DeliveryPolicy, p: Platform) -> Option<Delivery> {
    match p {
        Platform::Linux => policy.linux,
        Platform::Macos => policy.macos,
        Platform::Windows => policy.windows,
    }
}

pub open spec fn trust_for(policy: TrustPolicy, p: Platform) -> Option<Trust> {
    match p {
        Platform::Linux => Some(Trust::NotApplicable),
        Platform::Macos => policy.macos,
        Platform::Windows => policy.windows,
    }
}

pub open spec fn law_is_global(l: Law) -> bool {
    l == Law::Source || l == Law::Security || l == Law::SourcePackage
}

pub open spec fn law_needs_display(l: Law) -> bool {
    l == Law::FirstPresent || l == Law::NativeAcceptance || l == Law::Lifecycle
}

/// `x` is the first value of `s` that occurs again: it stands at some position
/// `j` after an equal value, and nothing before `j` repeats.
pub open spec fn first_repeat<A>(s: Seq<A>, x: A) -> bool {
    exists|i: int, j: int|
        0 <= i < j < s.len() && #[trigger] s[i] == x && #[trigger] s[j] == x && forall|a: int, b: int|
            0 <= a < b < j ==> s[a] != s[b]
}

/// No element lies in both `a` and `b`.
pub open spec fn disjoint(a: Seq<Coordinate>, b: Seq<Coordinate>) -> bool {
    forall|x: Coordinate| !(#[trigger] a.contains(x) && b.contains(x))
}

/// Whether the law must be proved at a release-tested coordinate of the profile.
pub open spec fn release_obligation(p: Profile, c: Coordinate, l: Law) -> bool {
    l == Law::Host || match p {
        Profile::NativeGui => l == Law::FirstPresent || l == Law::Lifecycle || (l
            == Law::NativeAcceptance && coordinate_display(c) == Some(DisplayBackend::X11)),
        Profile::PortableCli | Profile::PlatformBound => l == Law::Lifecycle,
        Profile::RustLibrary => false,
    }
}

/// Whether the law must be proved by a global proof of the profile.
pub open spec fn global_obligation(p: Profile, l: Law) -> bool {
    l == Law::Source || l == Law::Security || (l == Law::SourcePackage && p
        != Profile::PlatformBound)
}

impl Proof {
    pub open spec fn has_global_law(self) -> bool {
        exists|i: int| 0 <= i < self.laws@.len() && law_is_global(#[trigger] self.laws@[i])
    }

    pub open spec fn has_coordinate_law(self) -> bool {
        exists|i: int| 0 <= i < self.laws@.len() && !law_is_global(#[trigger] self.laws@[i])
    }

    pub open spec fn command_complete(self) -> bool {
        self.run@.len() > 0 && forall|k: int| 0 <= k < self.run@.len() ==> (#[trigger] self.run@[k])@.len() > 0
    }

    /// The proof is well formed within a contract that carries `carried`.
    pub open spec fn well_formed(self, carried: Seq<Coordinate>) -> bool {
        &&& is_slug(self.name@)
        &&& self.laws@.len() > 0
        &&& self.laws@.no_duplicates()
        &&& self.command_complete()
        &&& self.coordinates@.no_duplicates()
        &&& 1 <= self.timeout_minutes <= 360
        &&& !(self.has_global_law() && self.has_coordinate_law())
        &&& self.has_global_law() == (self.coordinates@.len() == 0)
        &&& forall|j: int| 0 <= j < self.coordinates@.len() ==> carried.contains(#[trigger] self.coordinates@[j])
    }

    pub open spec fn needs_display(self) -> bool {
        exists|i: int| 0 <= i < self.laws@.len() && law_needs_display(#[trigger] self.laws@[i])
    }

    /// The setup that the proof needs at the coordinate: the display server of a
    /// GUI coordinate where one of its laws needs a display; else, on a Linux
    /// coordinate, the setup the proof declares; else none.
    pub open spec fn setup_at(self, coordinate: Option<Coordinate>) -> Setup {
        match coordinate {
            Some(c) => if self.needs_display() && coordinate_display(c) == Some(DisplayBackend::X11) {
                Setup::X11
            } else if self.needs_display() && coordinate_display(c) == Some(DisplayBackend::Wayland) {
                Setup::Wayland
            } else if coordinate_display(c) is None && coordinate_platform(c) == Platform::Linux
                && self.setup is Some {
                self.setup->0
            } else {
                Setup::Ordinary
            },
            None => Setup::Ordinary,
        }
    }
}

impl Proof {
    /// `e` truthfully describes a defect of this proof within a contract that carries `carried`.
    pub open spec fn flaw(self, carried: Seq<Coordinate>, e: Error) -> bool {
        match e {
            Error::InvalidProofName(n) => n@ == self.name@ && !is_slug(n@),
            Error::ProofWithoutLaws(n) => n@ == self.name@ && self.laws@.len() == 0,
            Error::DuplicateLaw(n, l) => n@ == self.name@ && first_repeat(self.laws@, l),
            Error::EmptyCommand(n) => n@ == self.name@ && !self.command_complete(),
            Error::DuplicateProofCoordinate(n, x) => n@ == self.name@ && first_repeat(self.coordinates@, x),
            Error::TimeoutOutOfRange(n, t) => n@ == self.name@ && t == self.timeout_minutes && !(1 <= t
                <= 360),
            Error::MixedLaws(n) => n@ == self.name@ && self.has_global_law() && self.has_coordinate_law(),
            Error::GlobalProofWithCoordinates(n) => n@ == self.name@ && self.has_global_law()
                && self.coordinates@.len() > 0,
            Error::CoordinateProofWithoutCoordinates(n) => n@ == self.name@ && !self.has_global_law()
                && self.coordinates@.len() == 0,
            Error::UncarriedProofCoordinate(n, x) => n@ == self.name@ && self.coordinates@.contains(x)
                && !carried.contains(x),
            _ => false,
        }
    }
}

impl Proof {
    /// Every check that `Proof::validate` makes before the one that reports `e`
    /// passes: the name, the laws, their duplicates, the command, the coordinate
    /// duplicates, the timeout, the mix of laws, the coordinates the laws call for,
    /// then each coordinate in order.
    pub open spec fn earlier_checks_pass(self, carried: Seq<Coordinate>, e: Error) -> bool {
        let named = is_slug(self.name@);
        let lawful = named && self.laws@.len() > 0;
        let distinct_laws = lawful && self.laws@.no_duplicates();
        let commanded = distinct_laws && self.command_complete();
        let placed = commanded && self.coordinates@.no_duplicates();
        let timed = placed && 1 <= self.timeout_minutes <= 360;
        let unmixed = timed && !(self.has_global_law() && self.has_coordinate_law());
        match e {
            Error::InvalidProofName(_) => true,
            Error::ProofWithoutLaws(_) => named,
            Error::DuplicateLaw(_, _) => lawful,
            Error::EmptyCommand(_) => distinct_laws,
            Error::DuplicateProofCoordinate(_, _) => commanded,
            Error::TimeoutOutOfRange(_, _) => placed,
            Error::MixedLaws(_) => timed,
            Error::GlobalProofWithCoordinates(_) | Error::CoordinateProofWithoutCoordinates(_) => unmixed,
            Error::UncarriedProofCoordinate(_, x) => unmixed && self.has_global_law() == (self.coordinates@.len()
                == 0) && exists|i: int|
                0 <= i < self.coordinates@.len() && #[trigger] self.coordinates@[i] == x && forall|j: int|
                    0 <= j < i ==> carried.contains(#[trigger] self.coordinates@[j]),
            _ => true,
        }
    }
}

/// Where a law stands in the order in which validation demands proofs of it:
/// the global laws first, then the laws of a coordinate.
pub open spec fn law_order(l: Law) -> int {
    match l {
        Law::Source => 0,
        Law::Security => 1,
        Law::SourcePackage => 2,
        Law::Host => 3,
        Law::FirstPresent => 4,
        Law::Lifecycle => 5,
        Law::NativeAcceptance => 6,
        Law::Artifact => 7,
    }
}

/// The stage of contract validation that reports a refusal: schema, product,
/// coordinates, envelope, delivery, then proofs.
pub open spec fn refusal_stage(e: Error) -> int {
    match e {
        Error::UnsupportedSchema(_) => 0,
        Error::EmptyProductField(_) | Error::MissingBinary(_) => 1,
        Error::EmptyReleaseTested
        | Error::DuplicateReleaseTested(_)
        | Error::DuplicateSupported(_)
        | Error::ReleaseTestedAlsoSupported(_) => 2,
        Error::CarriedAlsoExcluded(_)
        | Error::VagueExclusion(_)
        | Error::DuplicateExclusion(_)
        | Error::UncoveredBaseline(_)
        | Error::ForeignCoordinate(_, _) => 3,
        Error::MissingDelivery(_) | Error::DeliveryCannotInhabit(_, _) | Error::MissingTrust(_) => 4,
        _ => 5,
    }
}

pub open spec fn proof_names(proofs: Seq<Proof>) -> Seq<Seq<char>> {
    proofs.map_values(|p: Proof| p.name@)
}

impl Contract {
    pub open spec fn release(self) -> Seq<Coordinate> {
        self.coordinates.release_tested@
    }

    pub open spec fn supported(self) -> Seq<Coordinate> {
        self.coordinates.supported@
    }

    /// Release-tested coordinates followed by supported ones.
    pub open spec fn carried(self) -> Seq<Coordinate> {
        self.release() + self.supported()
    }

    pub open spec fn excluded(self) -> Seq<Coordinate> {
        self.exclusions@.map_values(|e: Exclusion| e.coordinate)
    }

    pub open spec fn profile(self) -> Profile {
        self.product.profile
    }

    pub open spec fn baseline(self) -> Seq<Coordinate> {
        baseline_of(self.product.profile)
    }

    /// Some release-tested coordinate lies on the platform.
    pub open spec fn releases_on(self, p: Platform) -> bool {
        exists|i: int| 0 <= i < self.release().len() && coordinate_platform(#[trigger] self.release()[i]) == p
    }

    pub open spec fn discharges_globally(self, l: Law) -> bool {
        exists|i: int|
            0 <= i < self.proofs@.len() && (#[trigger] self.proofs@[i]).coordinates@.len() == 0
                && self.proofs@[i].laws@.contains(l)
    }

    pub open spec fn discharges_at(self, c: Coordinate, l: Law) -> bool {
        exists|i: int|
            0 <= i < self.proofs@.len() && (#[trigger] self.proofs@[i]).coordinates@.contains(c)
                && self.proofs@[i].laws@.contains(l)
    }

    /// Some artifact proof runs at a release-tested coordinate of the platform.
    pub open spec fn artifact_proved(self, p: Platform) -> bool {
        exists|i: int, j: int|
            0 <= i < self.proofs@.len() && 0 <= j < self.proofs@[i].coordinates@.len()
                && (#[trigger] self.proofs@[i]).laws@.contains(Law::Artifact)
                && self.release().contains(#[trigger] self.proofs@[i].coordinates@[j])
                && coordinate_platform(self.proofs@[i].coordinates@[j]) == p
    }

    pub open spec fn product_valid(self) -> bool {
        &&& trimmed(self.product.name@).len() > 0
        &&& trimmed(self.product.package@).len() > 0
        &&& (self.profile() == Profile::RustLibrary || self.product.binary is Some)
    }

    pub open spec fn coordinates_valid(self) -> bool {
        &&& self.release().len() > 0
        &&& self.release().no_duplicates()
        &&& self.supported().no_duplicates()
        &&& disjoint(self.release(), self.supported())
    }

    /// Every baseline coordinate is carried or excluded, and only baseline coordinates are.
    pub open spec fn envelope_valid(self) -> bool {
        &&& disjoint(self.carried(), self.excluded())
        &&& forall|i: int|
            0 <= i < self.exclusions@.len() ==> byte_len(trimmed((#[trigger] self.exclusions@[i]).reason@))
                >= 12
        &&& self.excluded().no_duplicates()
        &&& forall|x: Coordinate|
            #[trigger] self.baseline().contains(x) ==> self.carried().contains(x)
                || self.excluded().contains(x)
        &&& self.profile() != Profile::PlatformBound ==> forall|x: Coordinate|
            #[trigger] self.carried().contains(x) ==> self.baseline().contains(x)
    }

    /// Every release-tested platform of a shipped product has an admissible delivery,
    /// and a delivery on macOS or Windows has a trust state.
    pub open spec fn delivery_valid(self) -> bool {
        self.profile() != Profile::RustLibrary ==> forall|p: Platform|
            #[trigger] self.releases_on(p) ==> match delivery_for(self.delivery, p) {
                Some(d) => delivery_admits(d, p) && ((p == Platform::Macos || p == Platform::Windows)
                    ==> trust_for(self.trust, p) is Some),
                None => false,
            }
    }

    pub open spec fn artifacts_valid(self) -> bool {
        forall|p: Platform|
            #[trigger] self.releases_on(p) ==> match delivery_for(self.delivery, p) {
                Some(d) => delivery_produces_artifact(d) ==> self.artifact_proved(p),
                None => true,
            }
    }

    pub open spec fn obligations_met(self) -> bool {
        &&& forall|l: Law| #[trigger] global_obligation(self.profile(), l) ==> self.discharges_globally(l)
        &&& forall|c: Coordinate| #[trigger] self.supported().contains(c) ==> self.discharges_at(c, Law::Host)
        &&& forall|c: Coordinate, l: Law|
            self.release().contains(c) && #[trigger] release_obligation(self.profile(), c, l)
                ==> self.discharges_at(c, l)
    }

    pub open spec fn proofs_valid(self) -> bool {
        &&& self.proofs@.len() > 0
        &&& proof_names(self.proofs@).no_duplicates()
        &&& forall|i: int| 0 <= i < self.proofs@.len() ==> (#[trigger] self.proofs@[i]).well_formed(self.carried())
        &&& self.obligations_met()
        &&& self.artifacts_valid()
    }

    /// The whole contract is valid.
    pub open spec fn valid(self) -> bool {
        &&& self.schema == SCHEMA
        &&& self.product_valid()
        &&& self.coordinates_valid()
        &&& self.envelope_valid()
        &&& self.delivery_valid()
        &&& self.proofs_valid()
    }

    /// Every check that `validate` makes before the stage of its refusal passes.
    pub open spec fn holds_before(self, stage: int) -> bool {
        &&& stage > 0 ==> self.schema == SCHEMA
        &&& stage > 1 ==> self.product_valid()
        &&& stage > 2 ==> self.coordinates_valid()
        &&& stage > 3 ==> self.envelope_valid()
        &&& stage > 4 ==> self.delivery_valid()
    }

    /// The delivery checks pass for the platform.
    pub open spec fn platform_delivered(self, p: Platform) -> bool {
        match delivery_for(self.delivery, p) {
            Some(d) => delivery_admits(d, p) && ((p == Platform::Macos || p == Platform::Windows) ==> trust_for(
                self.trust,
                p,
            ) is Some),
            None => false,
        }
    }

    /// The artifact check passes for the platform.
    pub open spec fn platform_artifacted(self, p: Platform) -> bool {
        match delivery_for(self.delivery, p) {
            Some(d) => delivery_produces_artifact(d) ==> self.artifact_proved(p),
            None => true,
        }
    }

    /// Every law owed at the release-tested coordinate is proved there.
    pub open spec fn release_met(self, c: Coordinate) -> bool {
        forall|l: Law| #[trigger] release_obligation(self.profile(), c, l) ==> self.discharges_at(c, l)
    }

    /// The list of proofs is nonempty, its names are distinct and every proof is well formed.
    pub open spec fn proofs_checked(self) -> bool {
        &&& self.proofs@.len() > 0
        &&& proof_names(self.proofs@).no_duplicates()
        &&& forall|i: int| 0 <= i < self.proofs@.len() ==> (#[trigger] self.proofs@[i]).well_formed(self.carried())
    }

    pub open spec fn reason_short(self, i: int) -> bool {
        byte_len(trimmed(self.exclusions@[i].reason@)) < 12
    }

    pub open spec fn covered(self, x: Coordinate) -> bool {
        self.carried().contains(x) || self.excluded().contains(x)
    }

    /// `x` is the first supported coordinate, in list order, without a host proof.
    pub open spec fn first_unhosted(self, x: Coordinate) -> bool {
        exists|i: int|
            0 <= i < self.supported().len() && #[trigger] self.supported()[i] == x && forall|j: int|
                0 <= j < i ==> self.discharges_at(#[trigger] self.supported()[j], Law::Host)
    }

    /// `x` is the first release-tested coordinate, in list order, whose owed laws are
    /// not all proved, and `l` comes after every owed law of `x` that is proved.
    pub open spec fn first_unmet(self, x: Coordinate, l: Law) -> bool {
        &&& exists|i: int|
            0 <= i < self.release().len() && #[trigger] self.release()[i] == x && forall|j: int|
                0 <= j < i ==> self.release_met(#[trigger] self.release()[j])
        &&& forall|k: Law|
            #[trigger] release_obligation(self.profile(), x, k) && law_order(k) < law_order(l) ==> self.discharges_at(x, k)
    }

    /// Every check that `validate` makes before the one that reports `e`, within the
    /// stage of `e`, passes; where a check scans a list, `e` names its first offender.
    pub open spec fn earlier_checks_pass(self, e: Error) -> bool {
        let named = trimmed(self.product.name@).len() > 0;
        let packaged = named && trimmed(self.product.package@).len() > 0;
        let released = self.release().len() > 0;
        let distinct_release = released && self.release().no_duplicates();
        let distinct_supported = distinct_release && self.supported().no_duplicates();
        let apart = disjoint(self.carried(), self.excluded());
        let reasoned = apart && forall|i: int| 0 <= i < self.exclusions@.len() ==> !#[trigger] self.reason_short(i);
        let distinct_excluded = reasoned && self.excluded().no_duplicates();
        let baseline_covered = distinct_excluded && forall|x: Coordinate|
            #[trigger] self.baseline().contains(x) ==> self.covered(x);
        let globals = self.proofs_checked() && forall|l: Law|
            #[trigger] global_obligation(self.profile(), l) ==> self.discharges_globally(l);
        let supported_hosted = forall|c: Coordinate| #[trigger] self.supported().contains(c) ==> self.discharges_at(c, Law::Host);
        match e {
            Error::EmptyProductField(ProductField::Package) => named,
            Error::MissingBinary(_) => packaged,
            Error::DuplicateReleaseTested(_) => released,
            Error::DuplicateSupported(_) => distinct_release,
            Error::ReleaseTestedAlsoSupported(_) => distinct_supported,
            Error::VagueExclusion(x) => apart && exists|i: int|
                0 <= i < self.exclusions@.len() && (#[trigger] self.exclusions@[i]).coordinate == x
                    && self.reason_short(i) && forall|j: int| 0 <= j < i ==> !#[trigger] self.reason_short(j),
            Error::DuplicateExclusion(_) => reasoned,
            Error::UncoveredBaseline(x) => distinct_excluded && exists|i: int|
                0 <= i < self.baseline().len() && #[trigger] self.baseline()[i] == x && forall|j: int|
                    0 <= j < i ==> self.covered(#[trigger] self.baseline()[j]),
            Error::ForeignCoordinate(_, _) => baseline_covered,
            Error::MissingDelivery(p) | Error::DeliveryCannotInhabit(_, p) => forall|q: Platform|
                self.releases_on(q) && platform_rank(q) < platform_rank(p) ==> #[trigger] self.platform_delivered(q),
            Error::MissingTrust(p) => (delivery_for(self.delivery, p) matches Some(d) && delivery_admits(d, p))
                && forall|q: Platform|
                self.releases_on(q) && platform_rank(q) < platform_rank(p) ==> #[trigger] self.platform_delivered(q),
            Error::DuplicateProofName(_) => self.proofs@.len() > 0,
            Error::InvalidProofName(_)
            | Error::ProofWithoutLaws(_)
            | Error::DuplicateLaw(_, _)
            | Error::EmptyCommand(_)
            | Error::DuplicateProofCoordinate(_, _)
            | Error::TimeoutOutOfRange(_, _)
            | Error::MixedLaws(_)
            | Error::GlobalProofWithCoordinates(_)
            | Error::CoordinateProofWithoutCoordinates(_)
            | Error::UncarriedProofCoordinate(_, _) => self.proofs@.len() > 0 && proof_names(self.proofs@).no_duplicates()
                && exists|i: int|
                0 <= i < self.proofs@.len() && (#[trigger] self.proofs@[i]).flaw(self.carried(), e)
                    && self.proofs@[i].earlier_checks_pass(self.carried(), e) && forall|j: int|
                    0 <= j < i ==> (#[trigger] self.proofs@[j]).well_formed(self.carried()),
            Error::NoGlobalProof(l) => self.proofs_checked() && forall|k: Law|
                #[trigger] global_obligation(self.profile(), k) && law_order(k) < law_order(l) ==> self.discharges_globally(k),
            Error::NoCoordinateProof(x, l) => globals && ((l == Law::Host && self.first_unhosted(x)) || (
            supported_hosted && self.first_unmet(x, l))),
            Error::MissingArtifactProof(_, p) => self.proofs_checked() && self.obligations_met() && forall|q: Platform|
                self.releases_on(q) && platform_rank(q) < platform_rank(p) ==> #[trigger] self.platform_artifacted(q),
            _ => true,
        }
    }

    /// `e` truthfully describes a defect of the contract.
    pub open spec fn violation(self, e: Error) -> bool {
        match e {
            Error::UnsupportedSchema(s) => s == self.schema && s != SCHEMA,
            Error::EmptyProductField(ProductField::Name) => trimmed(self.product.name@).len() == 0,
            Error::EmptyProductField(ProductField::Package) => trimmed(self.product.package@).len() == 0,
            Error::MissingBinary(p) => p == self.profile() && p != Profile::RustLibrary && self.product.binary is None,
            Error::EmptyReleaseTested => self.release().len() == 0,
            Error::DuplicateReleaseTested(x) => first_repeat(self.release(), x),
            Error::DuplicateSupported(x) => first_repeat(self.supported(), x),
            Error::ReleaseTestedAlsoSupported(x) => self.release().contains(x) && self.supported().contains(x)
                && forall|y: Coordinate| self.release().contains(y) && self.supported().contains(y)
                    ==> coordinate_rank(x) <= #[trigger] coordinate_rank(y),
            Error::CarriedAlsoExcluded(x) => self.carried().contains(x) && self.excluded().contains(x)
                && forall|y: Coordinate| self.carried().contains(y) && self.excluded().contains(y)
                    ==> coordinate_rank(x) <= #[trigger] coordinate_rank(y),
            Error::VagueExclusion(x) => exists|i: int|
                0 <= i < self.exclusions@.len() && (#[trigger] self.exclusions@[i]).coordinate == x
                    && byte_len(trimmed(self.exclusions@[i].reason@)) < 12,
            Error::DuplicateExclusion(x) => first_repeat(self.excluded(), x),
            Error::UncoveredBaseline(x) => self.baseline().contains(x) && !self.carried().contains(x)
                && !self.excluded().contains(x),
            Error::ForeignCoordinate(x, p) => p == self.profile() && p != Profile::PlatformBound
                && self.carried().contains(x) && !self.baseline().contains(x) && forall|y: Coordinate|
                self.carried().contains(y) && !self.baseline().contains(y) ==> coordinate_rank(x)
                    <= #[trigger] coordinate_rank(y),
            Error::MissingDelivery(p) => self.profile() != Profile::RustLibrary && self.releases_on(p)
                && delivery_for(self.delivery, p) is None,
            Error::DeliveryCannotInhabit(d, p) => self.profile() != Profile::RustLibrary
                && self.releases_on(p) && delivery_for(self.delivery, p) == Some(d) && !delivery_admits(d, p),
            Error::MissingTrust(p) => self.profile() != Profile::RustLibrary && self.releases_on(p)
                && delivery_for(self.delivery, p) is Some && (p == Platform::Macos || p == Platform::Windows)
                && trust_for(self.trust, p) is None,
            Error::EmptyProofList => self.proofs@.len() == 0,
            Error::DuplicateProofName(n) => first_repeat(proof_names(self.proofs@), n@),
            Error::InvalidProofName(_)
            | Error::ProofWithoutLaws(_)
            | Error::DuplicateLaw(_, _)
            | Error::EmptyCommand(_)
            | Error::DuplicateProofCoordinate(_, _)
            | Error::TimeoutOutOfRange(_, _)
            | Error::MixedLaws(_)
            | Error::GlobalProofWithCoordinates(_)
            | Error::CoordinateProofWithoutCoordinates(_)
            | Error::UncarriedProofCoordinate(_, _) => exists|i: int|
                0 <= i < self.proofs@.len() && (#[trigger] self.proofs@[i]).flaw(self.carried(), e),
            Error::NoGlobalProof(l) => global_obligation(self.profile(), l) && !self.discharges_globally(l),
            Error::NoCoordinateProof(x, l) => ((self.supported().contains(x) && l == Law::Host) || (
            self.release().contains(x) && release_obligation(self.profile(), x, l)))
                && !self.discharges_at(x, l),
            Error::MissingArtifactProof(d, p) => self.releases_on(p) && delivery_for(self.delivery, p) == Some(d)
                && delivery_produces_artifact(d) && !self.artifact_proved(p),
            _ => false,
        }
    }
}


// ---------------------------------------------------------------------------
// Searching small sequences of closed values.

fn contains_coordinate(v: &Vec<Coordinate>, x: Coordinate) -> (r: bool)
    ensures
        r == v@.contains(x),
{
    let mut i: usize = 0;
    while i < v.len()
        invariant
            i <= v@.len(),
            forall|j: int| 0 <= j < i ==> v@[j] != x,
        decreases v@.len() - i,
    {
        if v[i] == x {
            return true;
        }
        i = i + 1;
    }
    false
}

fn contains_law(v: &Vec<Law>, x: Law) -> (r: bool)
    ensures
        r == v@.contains(x),
{
    let mut i: usize = 0;
    while i < v.len()
        invariant
            i <= v@.len(),
            forall|j: int| 0 <= j < i ==> v@[j] != x,
        decreases v@.len() - i,
    {
        if v[i] == x {
            return true;
        }
        i = i + 1;
    }
    false
}

fn duplicate_coordinate(v: &Vec<Coordinate>) -> (r: Option<Coordinate>)
    ensures
        match r {
            Some(x) => first_repeat(v@, x),
            None => v@.no_duplicates(),
        },
{
    let n = v.len();
    let mut j: usize = 0;
    while j < n
        invariant
            n == v@.len(),
            j <= n,
            forall|a: int, b: int| 0 <= a < b < j ==> v@[a] != v@[b],
        decreases n - j,
    {
        let mut i: usize = 0;
        while i < j
            invariant
                n == v@.len(),
                i <= j < n,
                forall|a: int| 0 <= a < i ==> v@[a] != v@[j as int],
                forall|a: int, b: int| 0 <= a < b < j ==> v@[a] != v@[b],
            decreases j - i,
        {
            if v[i] == v[j] {
                assert(v@[i as int] == v@[j as int]);
                return Some(v[j]);
            }
            i = i + 1;
        }
        j = j + 1;
    }
    assert forall|a: int, b: int| 0 <= a < v@.len() && 0 <= b < v@.len() && a != b implies v@[a] != v@[b] by {
        if a > b {
            assert(v@[b] != v@[a]);
        }
    }
    None
}

fn duplicate_law(v: &Vec<Law>) -> (r: Option<Law>)
    ensures
        match r {
            Some(x) => first_repeat(v@, x),
            None => v@.no_duplicates(),
        },
{
    let n = v.len();
    let mut j: usize = 0;
    while j < n
        invariant
            n == v@.len(),
            j <= n,
            forall|a: int, b: int| 0 <= a < b < j ==> v@[a] != v@[b],
        decreases n - j,
    {
        let mut i: usize = 0;
        while i < j
            invariant
                n == v@.len(),
                i <= j < n,
                forall|a: int| 0 <= a < i ==> v@[a] != v@[j as int],
                forall|a: int, b: int| 0 <= a < b < j ==> v@[a] != v@[b],
            decreases j - i,
        {
            if v[i] == v[j] {
                assert(v@[i as int] == v@[j as int]);
                return Some(v[j]);
            }
            i = i + 1;
        }
        j = j + 1;
    }
    assert forall|a: int, b: int| 0 <= a < v@.len() && 0 <= b < v@.len() && a != b implies v@[a] != v@[b] by {
        if a > b {
            assert(v@[b] != v@[a]);
        }
    }
    None
}

fn shared_coordinate(a: &Vec<Coordinate>, b: &Vec<Coordinate>) -> (r: Option<Coordinate>)
    ensures
        match r {
            Some(x) => a@.contains(x) && b@.contains(x) && forall|y: Coordinate|
                a@.contains(y) && b@.contains(y) ==> coordinate_rank(x) <= #[trigger] coordinate_rank(y),
            None => disjoint(a@, b@),
        },
{
    let all = all_coordinates();
    let mut k: usize = 0;
    while k < all.len()
        invariant
            all@.len() == 9,
            forall|i: int| 0 <= i < 9 ==> coordinate_rank(#[trigger] all@[i]) == i,
            forall|c: Coordinate| all@[coordinate_rank(c)] == c,
            k <= 9,
            forall|y: Coordinate| a@.contains(y) && b@.contains(y) ==> k <= #[trigger] coordinate_rank(y),
        decreases 9 - k,
    {
        let c = all[k];
        if contains_coordinate(a, c) && contains_coordinate(b, c) {
            return Some(c);
        }
        assert forall|y: Coordinate| a@.contains(y) && b@.contains(y) implies k + 1 <= #[trigger] coordinate_rank(
            y,
        ) by {
            if coordinate_rank(y) == k {
                assert(all@[coordinate_rank(y)] == y);
            }
        }
        k = k + 1;
    }
    assert forall|x: Coordinate| !(#[trigger] a@.contains(x) && b@.contains(x)) by {
        if a@.contains(x) && b@.contains(x) {
            assert(9 <= coordinate_rank(x));
        }
    }
    None
}

fn duplicate_proof_name(v: &Vec<Proof>) -> (r: Option<String>)
    ensures
        match r {
            Some(n) => first_repeat(proof_names(v@), n@),
            None => proof_names(v@).no_duplicates(),
        },
{
    let ghost names = proof_names(v@);
    let n = v.len();
    let mut j: usize = 0;
    while j < n
        invariant
            n == v@.len(),
            names == proof_names(v@),
            j <= n,
            forall|a: int, b: int| 0 <= a < b < j ==> names[a] != names[b],
        decreases n - j,
    {
        let mut i: usize = 0;
        while i < j
            invariant
                n == v@.len(),
                names == proof_names(v@),
                i <= j < n,
                forall|a: int| 0 <= a < i ==> names[a] != names[j as int],
                forall|a: int, b: int| 0 <= a < b < j ==> names[a] != names[b],
            decreases j - i,
        {
            if same_text(v[i].name.as_str(), v[j].name.as_str()) {
                assert(names[i as int] == names[j as int]);
                return Some(v[j].name.clone());
            }
            i = i + 1;
        }
        j = j + 1;
    }
    assert forall|a: int, b: int| 0 <= a < names.len() && 0 <= b < names.len() && a != b implies names[a] != names[b] by {
        if a > b {
            assert(names[b] != names[a]);
        }
    }
    None
}

// ---------------------------------------------------------------------------
// The closed values' own operations.

impl Coordinate {
    /// The operating system, as Rust names it.
    pub fn os(self) -> (r: &'static str)
        ensures
            r@ == coordinate_os(self),
    {
        match self.platform() {
            Platform::Linux => "linux",
            Platform::Macos => "macos",
            Platform::Windows => "windows",
        }
    }

    /// The CPU architecture, as Rust names it.
    pub fn arch(self) -> (r: &'static str)
        ensures
            r@ == coordinate_arch(self),
    {
        match self {
            Coordinate::MacosAarch64Metal | Coordinate::MacosAarch64 => "aarch64",
            _ => "x86_64",
        }
    }

    /// The display server of a Linux GUI coordinate.
    pub fn display(self) -> (r: Option<DisplayBackend>)
        ensures
            r == coordinate_display(self),
    {
        match self {
            Coordinate::LinuxX86_64X11Vulkan => Some(DisplayBackend::X11),
            Coordinate::LinuxX86_64WaylandVulkan => Some(DisplayBackend::Wayland),
            _ => None,
        }
    }

    /// The hosted runner image that proves the coordinate.
    pub fn runner(self) -> (r: &'static str)
        ensures
            r@ == match self {
                Coordinate::MacosAarch64Metal | Coordinate::MacosAarch64 => "macos-15"@,
                Coordinate::MacosX86_64Metal | Coordinate::MacosX86_64 => "macos-15-intel"@,
                Coordinate::WindowsX86_64Dx12 | Coordinate::WindowsX86_64 => "windows-2025"@,
                _ => "ubuntu-24.04"@,
            },
    {
        match self {
            Coordinate::MacosAarch64Metal | Coordinate::MacosAarch64 => "macos-15",
            Coordinate::MacosX86_64Metal | Coordinate::MacosX86_64 => "macos-15-intel",
            Coordinate::WindowsX86_64Dx12 | Coordinate::WindowsX86_64 => "windows-2025",
            _ => "ubuntu-24.04",
        }
    }

    /// The Rust target triple built for the coordinate.
    pub fn target_triple(self) -> (r: &'static str)
        ensures
            r@ == match coordinate_platform(self) {
                Platform::Linux => "x86_64-unknown-linux-gnu"@,
                Platform::Macos => if self == Coordinate::MacosAarch64Metal || self
                    == Coordinate::MacosAarch64 {
                    "aarch64-apple-darwin"@
                } else {
                    "x86_64-apple-darwin"@
                },
                Platform::Windows => "x86_64-pc-windows-msvc"@,
            },
    {
        match self {
            Coordinate::LinuxX86_64X11Vulkan
            | Coordinate::LinuxX86_64WaylandVulkan
            | Coordinate::LinuxX86_64 => "x86_64-unknown-linux-gnu",
            Coordinate::MacosAarch64Metal | Coordinate::MacosAarch64 => "aarch64-apple-darwin",
            Coordinate::MacosX86_64Metal | Coordinate::MacosX86_64 => "x86_64-apple-darwin",
            Coordinate::WindowsX86_64Dx12 | Coordinate::WindowsX86_64 => "x86_64-pc-windows-msvc",
        }
    }

    /// Whether a host with this operating system and architecture can prove the coordinate.
    pub fn inhabits(self, os: &str, arch: &str) -> (r: bool)
        ensures
            r == (coordinate_os(self) == os@ && coordinate_arch(self) == arch@),
    {
        same_text(self.os(), os) && same_text(self.arch(), arch)
    }
}

impl Platform {
    /// The platform's canonical name.
    pub fn name(self) -> (r: &'static str)
        ensures
            r@ == match self {
                Platform::Linux => "linux"@,
                Platform::Macos => "macos"@,
                Platform::Windows => "windows"@,
            },
    {
        match self {
            Platform::Linux => "linux",
            Platform::Macos => "macos",
            Platform::Windows => "windows",
        }
    }
}

impl Profile {
    /// The coordinates that a product of this profile must carry or exclude.
    pub fn baseline(self) -> (r: Vec<Coordinate>)
        ensures
            r@ == baseline_of(self),
    {
        match self {
            Profile::NativeGui => vec![
                Coordinate::LinuxX86_64X11Vulkan,
                Coordinate::LinuxX86_64WaylandVulkan,
                Coordinate::MacosAarch64Metal,
                Coordinate::MacosX86_64Metal,
                Coordinate::WindowsX86_64Dx12,
            ],
            Profile::PortableCli | Profile::RustLibrary => vec![
                Coordinate::LinuxX86_64,
                Coordinate::MacosAarch64,
                Coordinate::MacosX86_64,
                Coordinate::WindowsX86_64,
            ],
            Profile::PlatformBound => Vec::new(),
        }
    }

    /// The profile's canonical name.
    pub fn name(self) -> (r: &'static str)
        ensures
            r@ == match self {
                Profile::NativeGui => "native-gui"@,
                Profile::PortableCli => "portable-cli"@,
                Profile::RustLibrary => "rust-library"@,
                Profile::PlatformBound => "platform-bound"@,
            },
    {
        match self {
            Profile::NativeGui => "native-gui",
            Profile::PortableCli => "portable-cli",
            Profile::RustLibrary => "rust-library",
            Profile::PlatformBound => "platform-bound",
        }
    }
}

impl DeliveryPolicy {
    /// The delivery declared for the platform.
    pub fn for_platform(&self, platform: Platform) -> (r: Option<Delivery>)
        ensures
            r == delivery_for(*self, platform),
    {
        match platform {
            Platform::Linux => self.linux,
            Platform::Macos => self.macos,
            Platform::Windows => self.windows,
        }
    }
}

impl Delivery {
    /// Whether the delivery can inhabit the platform.
    fn admits(self, platform: Platform) -> (r: bool)
        ensures
            r == delivery_admits(self, platform),
    {
        match self {
            Delivery::Cargo | Delivery::GithubArchive => true,
            Delivery::Dmg => platform == Platform::Macos,
            Delivery::NsisCurrentUser | Delivery::DistPowershell => platform == Platform::Windows,
            Delivery::DistShell => platform == Platform::Linux || platform == Platform::Macos,
        }
    }

    /// Whether the delivery produces a release artifact.
    pub fn produces_artifact(self) -> (r: bool)
        ensures
            r == delivery_produces_artifact(self),
    {
        !matches!(self, Delivery::Cargo)
    }

    /// The delivery's canonical name.
    pub fn name(self) -> (r: &'static str)
        ensures
            r@ == match self {
                Delivery::Cargo => "cargo"@,
                Delivery::Dmg => "dmg"@,
                Delivery::NsisCurrentUser => "nsis-current-user"@,
                Delivery::DistShell => "dist-shell"@,
                Delivery::DistPowershell => "dist-powershell"@,
                Delivery::GithubArchive => "github-archive"@,
            },
    {
        match self {
            Delivery::Cargo => "cargo",
            Delivery::Dmg => "dmg",
            Delivery::NsisCurrentUser => "nsis-current-user",
            Delivery::DistShell => "dist-shell",
            Delivery::DistPowershell => "dist-powershell",
            Delivery::GithubArchive => "github-archive",
        }
    }
}

impl TrustPolicy {
    /// The trust state of the platform; Linux needs none.
    pub fn for_platform(&self, platform: Platform) -> (r: Option<Trust>)
        ensures
            r == trust_for(*self, platform),
    {
        match platform {
            Platform::Linux => Some(Trust::NotApplicable),
            Platform::Macos => self.macos,
            Platform::Windows => self.windows,
        }
    }
}

impl Law {
    fn is_global(self) -> (r: bool)
        ensures
            r == law_is_global(self),
    {
        matches!(self, Law::Source | Law::Security | Law::SourcePackage)
    }

    fn needs_display(self) -> (r: bool)
        ensures
            r == law_needs_display(self),
    {
        matches!(self, Law::FirstPresent | Law::NativeAcceptance | Law::Lifecycle)
    }

    /// The law's canonical name.
    pub fn name(self) -> (r: &'static str)
        ensures
            r@ == match self {
                Law::Source => "source"@,
                Law::Security => "security"@,
                Law::SourcePackage => "source-package"@,
                Law::Host => "host"@,
                Law::FirstPresent => "first-present"@,
                Law::NativeAcceptance => "native-acceptance"@,
                Law::Lifecycle => "lifecycle"@,
                Law::Artifact => "artifact"@,
            },
    {
        match self {
            Law::Source => "source",
            Law::Security => "security",
            Law::SourcePackage => "source-package",
            Law::Host => "host",
            Law::FirstPresent => "first-present",
            Law::NativeAcceptance => "native-acceptance",
            Law::Lifecycle => "lifecycle",
            Law::Artifact => "artifact",
        }
    }
}

impl Setup {
    /// The setup's canonical name.
    pub fn name(self) -> (r: &'static str)
        ensures
            r@ == match self {
                Setup::Ordinary => "ordinary"@,
                Setup::X11 => "x11"@,
                Setup::Wayland => "wayland"@,
            },
    {
        match self {
            Setup::Ordinary => "ordinary",
            Setup::X11 => "x11",
            Setup::Wayland => "wayland",
        }
    }
}

/// The timeout of a proof that declares none, in minutes.
pub fn default_timeout() -> (r: u16)
    ensures
        r == 45,
{
    45
}


fn copy_coordinates(v: &Vec<Coordinate>) -> (r: Vec<Coordinate>)
    ensures
        r@ == v@,
{
    let mut out: Vec<Coordinate> = Vec::new();
    let mut i: usize = 0;
    while i < v.len()
        invariant
            i <= v@.len(),
            out@ == v@.subrange(0, i as int),
        decreases v@.len() - i,
    {
        out.push(v[i]);
        i = i + 1;
        assert(out@ =~= v@.subrange(0, i as int));
    }
    assert(out@ =~= v@);
    out
}

/// A copy of the laws.
pub fn copy_laws(v: &Vec<Law>) -> (r: Vec<Law>)
    ensures
        r@ == v@,
{
    let mut out: Vec<Law> = Vec::new();
    let mut i: usize = 0;
    while i < v.len()
        invariant
            i <= v@.len(),
            out@ == v@.subrange(0, i as int),
        decreases v@.len() - i,
    {
        out.push(v[i]);
        i = i + 1;
        assert(out@ =~= v@.subrange(0, i as int));
    }
    assert(out@ =~= v@);
    out
}

pub open spec fn platform_rank(p: Platform) -> int {
    match p {
        Platform::Linux => 0,
        Platform::Macos => 1,
        Platform::Windows => 2,
    }
}

impl Contract {
    /// The release-tested coordinates, in contract order.
    pub fn release_coordinates(&self) -> (r: Vec<Coordinate>)
        ensures
            r@ == self.release(),
    {
        copy_coordinates(&self.coordinates.release_tested)
    }

    /// The carried coordinates: release-tested ones, then supported ones.
    pub fn carried_coordinates(&self) -> (r: Vec<Coordinate>)
        ensures
            r@ == self.carried(),
    {
        let mut out = copy_coordinates(&self.coordinates.release_tested);
        let mut i: usize = 0;
        let ghost start = out@;
        while i < self.coordinates.supported.len()
            invariant
                start == self.release(),
                i <= self.supported().len(),
                out@ == start + self.supported().subrange(0, i as int),
            decreases self.supported().len() - i,
        {
            out.push(self.coordinates.supported[i]);
            i = i + 1;
            assert(out@ =~= start + self.supported().subrange(0, i as int));
        }
        assert(self.supported().subrange(0, i as int) =~= self.supported());
        out
    }

    fn excluded_coordinates(&self) -> (r: Vec<Coordinate>)
        ensures
            r@ == self.excluded(),
    {
        let mut out: Vec<Coordinate> = Vec::new();
        let mut i: usize = 0;
        while i < self.exclusions.len()
            invariant
                i <= self.exclusions@.len(),
                out@ == self.excluded().subrange(0, i as int),
            decreases self.exclusions@.len() - i,
        {
            out.push(self.exclusions[i].coordinate);
            i = i + 1;
            assert(out@ =~= self.excluded().subrange(0, i as int));
        }
        assert(out@ =~= self.excluded());
        out
    }

    fn releases_on_platform(&self, p: Platform) -> (r: bool)
        ensures
            r == self.releases_on(p),
    {
        let mut i: usize = 0;
        while i < self.coordinates.release_tested.len()
            invariant
                i <= self.release().len(),
                forall|j: int| 0 <= j < i ==> coordinate_platform(#[trigger] self.release()[j]) != p,
            decreases self.release().len() - i,
        {
            if self.coordinates.release_tested[i].platform() == p {
                return true;
            }
            i = i + 1;
        }
        false
    }

    /// The platforms of the release-tested coordinates, each once, in the order
    /// Linux, macOS, Windows.
    pub fn release_platforms(&self) -> (r: Vec<Platform>)
        ensures
            forall|p: Platform| r@.contains(p) <==> self.releases_on(p),
            forall|i: int, j: int|
                0 <= i < j < r@.len() ==> platform_rank(r@[i]) < platform_rank(r@[j]),
    {
        let mut out: Vec<Platform> = Vec::new();
        if self.releases_on_platform(Platform::Linux) {
            out.push(Platform::Linux);
        }
        if self.releases_on_platform(Platform::Macos) {
            out.push(Platform::Macos);
        }
        if self.releases_on_platform(Platform::Windows) {
            out.push(Platform::Windows);
        }
        assert forall|p: Platform| out@.contains(p) <==> self.releases_on(p) by {
            if self.releases_on(p) {
                match p {
                    Platform::Linux => assert(out@[0] == p),
                    Platform::Macos => assert(out@[out@.len() - 1 - (if self.releases_on(Platform::Windows) { 1int } else { 0int })] == p),
                    Platform::Windows => assert(out@[out@.len() - 1] == p),
                }
            }
        }
        out
    }

    /// The first proof named `name`.
    pub fn proof_named(&self, name: &str) -> (r: Option<&Proof>)
        ensures
            match r {
                Some(p) => exists|i: int|
                    0 <= i < self.proofs@.len() && self.proofs@[i] == *p && p.name@ == name@
                        && forall|j: int| 0 <= j < i ==> (#[trigger] self.proofs@[j]).name@ != name@,
                None => forall|i: int| 0 <= i < self.proofs@.len() ==> (#[trigger] self.proofs@[i]).name@ != name@,
            },
    {
        let mut i: usize = 0;
        while i < self.proofs.len()
            invariant
                i <= self.proofs@.len(),
                forall|j: int| 0 <= j < i ==> (#[trigger] self.proofs@[j]).name@ != name@,
            decreases self.proofs@.len() - i,
        {
            if same_text(self.proofs[i].name.as_str(), name) {
                return Some(&self.proofs[i]);
            }
            i = i + 1;
        }
        None
    }
}


impl Proof {
    fn any_global_law(&self) -> (r: bool)
        ensures
            r == self.has_global_law(),
    {
        let mut i: usize = 0;
        while i < self.laws.len()
            invariant
                i <= self.laws@.len(),
                forall|j: int| 0 <= j < i ==> !law_is_global(#[trigger] self.laws@[j]),
            decreases self.laws@.len() - i,
        {
            if self.laws[i].is_global() {
                return true;
            }
            i = i + 1;
        }
        false
    }

    fn any_coordinate_law(&self) -> (r: bool)
        ensures
            r == self.has_coordinate_law(),
    {
        let mut i: usize = 0;
        while i < self.laws.len()
            invariant
                i <= self.laws@.len(),
                forall|j: int| 0 <= j < i ==> law_is_global(#[trigger] self.laws@[j]),
            decreases self.laws@.len() - i,
        {
            if !self.laws[i].is_global() {
                return true;
            }
            i = i + 1;
        }
        false
    }

    fn any_display_law(&self) -> (r: bool)
        ensures
            r == self.needs_display(),
    {
        let mut i: usize = 0;
        while i < self.laws.len()
            invariant
                i <= self.laws@.len(),
                forall|j: int| 0 <= j < i ==> !law_needs_display(#[trigger] self.laws@[j]),
            decreases self.laws@.len() - i,
        {
            if self.laws[i].needs_display() {
                return true;
            }
            i = i + 1;
        }
        false
    }

    fn command_is_complete(&self) -> (r: bool)
        ensures
            r == self.command_complete(),
    {
        if self.run.len() == 0 {
            return false;
        }
        let mut k: usize = 0;
        while k < self.run.len()
            invariant
                k <= self.run@.len(),
                forall|j: int| 0 <= j < k ==> (#[trigger] self.run@[j])@.len() > 0,
            decreases self.run@.len() - k,
        {
            if self.run[k].as_str().is_empty() {
                return false;
            }
            k = k + 1;
        }
        true
    }

    /// Checks the proof within a contract that carries `carried`.
    fn validate(&self, carried: &Vec<Coordinate>) -> (r: Result<(), Error>)
        ensures
            r is Ok <==> self.well_formed(carried@),
            r matches Err(e) ==> self.flaw(carried@, e),
            r matches Err(e) ==> self.earlier_checks_pass(carried@, e),
    {
        if !valid_slug(self.name.as_str()) {
            return Err(Error::InvalidProofName(self.name.clone()));
        }
        if self.laws.len() == 0 {
            return Err(Error::ProofWithoutLaws(self.name.clone()));
        }
        if let Some(law) = duplicate_law(&self.laws) {
            return Err(Error::DuplicateLaw(self.name.clone(), law));
        }
        if !self.command_is_complete() {
            return Err(Error::EmptyCommand(self.name.clone()));
        }
        if let Some(c) = duplicate_coordinate(&self.coordinates) {
            return Err(Error::DuplicateProofCoordinate(self.name.clone(), c));
        }
        if !(1 <= self.timeout_minutes && self.timeout_minutes <= 360) {
            return Err(Error::TimeoutOutOfRange(self.name.clone(), self.timeout_minutes));
        }
        let global = self.any_global_law();
        let coordinate = self.any_coordinate_law();
        if global && coordinate {
            return Err(Error::MixedLaws(self.name.clone()));
        }
        if global && self.coordinates.len() != 0 {
            return Err(Error::GlobalProofWithCoordinates(self.name.clone()));
        }
        if !global && self.coordinates.len() == 0 {
            return Err(Error::CoordinateProofWithoutCoordinates(self.name.clone()));
        }
        let mut j: usize = 0;
        while j < self.coordinates.len()
            invariant
                j <= self.coordinates@.len(),
                forall|k: int| 0 <= k < j ==> carried@.contains(#[trigger] self.coordinates@[k]),
                is_slug(self.name@),
                self.laws@.len() > 0,
                self.laws@.no_duplicates(),
                self.command_complete(),
                self.coordinates@.no_duplicates(),
                1 <= self.timeout_minutes <= 360,
                !(self.has_global_law() && self.has_coordinate_law()),
                self.has_global_law() == (self.coordinates@.len() == 0),
            decreases self.coordinates@.len() - j,
        {
            if !contains_coordinate(carried, self.coordinates[j]) {
                assert(self.coordinates@.contains(self.coordinates@[j as int]));
                assert(self.coordinates@[j as int] == self.coordinates@[j as int]);
                return Err(Error::UncarriedProofCoordinate(self.name.clone(), self.coordinates[j]));
            }
            j = j + 1;
        }
        Ok(())
    }

    /// The host preparation that the proof needs at the coordinate: the display
    /// server of a GUI coordinate where one of its laws needs a display, else the
    /// setup it declares for a generic Linux coordinate, else none.
    pub fn setup(&self, coordinate: Option<Coordinate>) -> (r: Setup)
        ensures
            r == self.setup_at(coordinate),
    {
        let c = match coordinate {
            Some(c) => c,
            None => {
                return Setup::Ordinary;
            },
        };
        let needs_display = self.any_display_law();
        match c.display() {
            Some(DisplayBackend::X11) => {
                if needs_display {
                    Setup::X11
                } else {
                    Setup::Ordinary
                }
            },
            Some(DisplayBackend::Wayland) => {
                if needs_display {
                    Setup::Wayland
                } else {
                    Setup::Ordinary
                }
            },
            None => {
                if c.platform() == Platform::Linux {
                    match self.setup {
                        Some(declared) => declared,
                        None => Setup::Ordinary,
                    }
                } else {
                    Setup::Ordinary
                }
            },
        }
    }
}


impl Contract {
    fn validate_product(&self) -> (r: Result<(), Error>)
        ensures
            r matches Err(e) ==> refusal_stage(e) == 1,
            r matches Err(e) ==> self.earlier_checks_pass(e),
            r is Ok <==> self.product_valid(),
            r matches Err(e) ==> self.violation(e),
    {
        if is_blank(self.product.name.as_str()) {
            return Err(Error::EmptyProductField(ProductField::Name));
        }
        if is_blank(self.product.package.as_str()) {
            return Err(Error::EmptyProductField(ProductField::Package));
        }
        if !(self.product.profile == Profile::RustLibrary || self.product.binary.is_some()) {
            return Err(Error::MissingBinary(self.product.profile));
        }
        Ok(())
    }

    fn validate_coordinates(&self) -> (r: Result<(), Error>)
        ensures
            r matches Err(e) ==> refusal_stage(e) == 2,
            r matches Err(e) ==> self.earlier_checks_pass(e),
            r is Ok <==> self.coordinates_valid(),
            r matches Err(e) ==> self.violation(e),
    {
        if self.coordinates.release_tested.len() == 0 {
            return Err(Error::EmptyReleaseTested);
        }
        if let Some(c) = duplicate_coordinate(&self.coordinates.release_tested) {
            return Err(Error::DuplicateReleaseTested(c));
        }
        if let Some(c) = duplicate_coordinate(&self.coordinates.supported) {
            return Err(Error::DuplicateSupported(c));
        }
        if let Some(c) = shared_coordinate(&self.coordinates.release_tested, &self.coordinates.supported) {
            return Err(Error::ReleaseTestedAlsoSupported(c));
        }
        Ok(())
    }

    fn validate_envelope(&self) -> (r: Result<(), Error>)
        ensures
            r matches Err(e) ==> refusal_stage(e) == 3,
            r matches Err(e) ==> self.earlier_checks_pass(e),
            r is Ok <==> self.envelope_valid(),
            r matches Err(e) ==> self.violation(e),
    {
        let carried = self.carried_coordinates();
        let excluded = self.excluded_coordinates();
        if let Some(c) = shared_coordinate(&carried, &excluded) {
            return Err(Error::CarriedAlsoExcluded(c));
        }
        let mut i: usize = 0;
        while i < self.exclusions.len()
            invariant
                i <= self.exclusions@.len(),
                carried@ == self.carried(),
                excluded@ == self.excluded(),
                disjoint(self.carried(), self.excluded()),
                forall|j: int|
                    0 <= j < i ==> byte_len(trimmed((#[trigger] self.exclusions@[j]).reason@)) >= 12,
                forall|j: int| 0 <= j < i ==> !#[trigger] self.reason_short(j),
            decreases self.exclusions@.len() - i,
        {
            if trimmed_byte_len(self.exclusions[i].reason.as_str()) < 12 {
                assert(self.reason_short(i as int));
                assert(self.exclusions@[i as int].coordinate == self.exclusions@[i as int].coordinate);
                return Err(Error::VagueExclusion(self.exclusions[i].coordinate));
            }
            assert(!self.reason_short(i as int));
            i = i + 1;
        }
        if let Some(c) = duplicate_coordinate(&excluded) {
            return Err(Error::DuplicateExclusion(c));
        }
        let profile = self.product.profile;
        let baseline = profile.baseline();
        let mut k: usize = 0;
        while k < baseline.len()
            invariant
                baseline@ == self.baseline(),
                carried@ == self.carried(),
                excluded@ == self.excluded(),
                k <= baseline@.len(),
                forall|j: int|
                    0 <= j < k ==> carried@.contains(#[trigger] baseline@[j]) || excluded@.contains(
                        baseline@[j],
                    ),
                forall|j: int| 0 <= j < k ==> self.covered(#[trigger] self.baseline()[j]),
                disjoint(self.carried(), self.excluded()),
                forall|i: int| 0 <= i < self.exclusions@.len() ==> !#[trigger] self.reason_short(i),
                self.excluded().no_duplicates(),
            decreases baseline@.len() - k,
        {
            let c = baseline[k];
            if !contains_coordinate(&carried, c) && !contains_coordinate(&excluded, c) {
                assert(baseline@.contains(baseline@[k as int]));
                assert(self.baseline()[k as int] == c);
                return Err(Error::UncoveredBaseline(c));
            }
            k = k + 1;
        }
        assert forall|x: Coordinate| #[trigger] self.baseline().contains(x) implies self.carried().contains(x)
            || self.excluded().contains(x) by {
            let j = choose|j: int| 0 <= j < baseline@.len() && baseline@[j] == x;
            assert(carried@.contains(baseline@[j]) || excluded@.contains(baseline@[j]));
        }
        assert forall|x: Coordinate| #[trigger] self.baseline().contains(x) implies self.covered(x) by {}
        if profile != Profile::PlatformBound {
            let all = all_coordinates();
            let mut m: usize = 0;
            while m < all.len()
                invariant
                    all@.len() == 9,
                    forall|i: int| 0 <= i < 9 ==> coordinate_rank(#[trigger] all@[i]) == i,
                    forall|c: Coordinate| all@[coordinate_rank(c)] == c,
                    baseline@ == self.baseline(),
                    carried@ == self.carried(),
                    profile == self.profile(),
                    profile != Profile::PlatformBound,
                    disjoint(self.carried(), self.excluded()),
                    forall|i: int| 0 <= i < self.exclusions@.len() ==> !#[trigger] self.reason_short(i),
                    self.excluded().no_duplicates(),
                    forall|x: Coordinate| #[trigger] self.baseline().contains(x) ==> self.covered(x),
                    m <= 9,
                    forall|y: Coordinate|
                        carried@.contains(y) && !baseline@.contains(y) ==> m <= #[trigger] coordinate_rank(y),
                decreases 9 - m,
            {
                let c = all[m];
                if contains_coordinate(&carried, c) && !contains_coordinate(&baseline, c) {
                    return Err(Error::ForeignCoordinate(c, profile));
                }
                assert forall|y: Coordinate| carried@.contains(y) && !baseline@.contains(y) implies m + 1
                    <= #[trigger] coordinate_rank(y) by {
                    if coordinate_rank(y) == m {
                        assert(all@[coordinate_rank(y)] == y);
                    }
                }
                m = m + 1;
            }
            assert forall|x: Coordinate| #[trigger] self.carried().contains(x) implies self.baseline().contains(x) by {
                if !baseline@.contains(x) {
                    assert(9 <= coordinate_rank(x));
                }
            }
        }
        Ok(())
    }

    fn validate_delivery(&self) -> (r: Result<(), Error>)
        ensures
            r matches Err(e) ==> refusal_stage(e) == 4,
            r matches Err(e) ==> self.earlier_checks_pass(e),
            r is Ok <==> self.delivery_valid(),
            r matches Err(e) ==> self.violation(e),
    {
        if self.product.profile == Profile::RustLibrary {
            return Ok(());
        }
        let platforms = self.release_platforms();
        let mut i: usize = 0;
        while i < platforms.len()
            invariant
                self.profile() != Profile::RustLibrary,
                forall|p: Platform| platforms@.contains(p) <==> self.releases_on(p),
                i <= platforms@.len(),
                forall|j: int|
                    0 <= j < i ==> match delivery_for(self.delivery, #[trigger] platforms@[j]) {
                        Some(d) => delivery_admits(d, platforms@[j]) && ((platforms@[j] == Platform::Macos
                            || platforms@[j] == Platform::Windows) ==> trust_for(self.trust, platforms@[j]) is Some),
                        None => false,
                    },
                forall|a: int, b: int|
                    0 <= a < b < platforms@.len() ==> platform_rank(platforms@[a]) < platform_rank(platforms@[b]),
            decreases platforms@.len() - i,
        {
            let p = platforms[i];
            assert(platforms@.contains(p));
            assert(self.releases_on(p));
            assert forall|q: Platform|
                self.releases_on(q) && platform_rank(q) < platform_rank(p) implies #[trigger] self.platform_delivered(
                q,
            ) by {
                assert(platforms@.contains(q));
                let w = choose|w: int| 0 <= w < platforms@.len() && platforms@[w] == q;
                if w >= i {
                    if w > i {
                        assert(platform_rank(platforms@[i as int]) < platform_rank(platforms@[w]));
                    }
                    assert(false);
                }
                assert(platforms@[w] == q);
            }
            match self.delivery.for_platform(p) {
                None => {
                    return Err(Error::MissingDelivery(p));
                },
                Some(d) => {
                    if !d.admits(p) {
                        return Err(Error::DeliveryCannotInhabit(d, p));
                    }
                    if (p == Platform::Macos || p == Platform::Windows) && self.trust.for_platform(p).is_none() {
                        return Err(Error::MissingTrust(p));
                    }
                },
            }
            i = i + 1;
        }
        assert forall|p: Platform| #[trigger] self.releases_on(p) implies match delivery_for(self.delivery, p) {
            Some(d) => delivery_admits(d, p) && ((p == Platform::Macos || p == Platform::Windows) ==> trust_for(
                self.trust,
                p,
            ) is Some),
            None => false,
        } by {
            assert(platforms@.contains(p));
            let j = choose|j: int| 0 <= j < platforms@.len() && platforms@[j] == p;
            assert(j < i);
        }
        Ok(())
    }

    fn require_global_law(&self, law: Law) -> (r: Result<(), Error>)
        ensures
            r is Ok <==> self.discharges_globally(law),
            r matches Err(e) ==> e == Error::NoGlobalProof(law),
    {
        let mut i: usize = 0;
        while i < self.proofs.len()
            invariant
                i <= self.proofs@.len(),
                forall|j: int|
                    0 <= j < i ==> !((#[trigger] self.proofs@[j]).coordinates@.len() == 0
                        && self.proofs@[j].laws@.contains(law)),
            decreases self.proofs@.len() - i,
        {
            if self.proofs[i].coordinates.len() == 0 && contains_law(&self.proofs[i].laws, law) {
                return Ok(());
            }
            i = i + 1;
        }
        Err(Error::NoGlobalProof(law))
    }

    fn require_coordinate_law(&self, coordinate: Coordinate, law: Law) -> (r: Result<(), Error>)
        ensures
            r is Ok <==> self.discharges_at(coordinate, law),
            r matches Err(e) ==> e == Error::NoCoordinateProof(coordinate, law),
    {
        let mut i: usize = 0;
        while i < self.proofs.len()
            invariant
                i <= self.proofs@.len(),
                forall|j: int|
                    0 <= j < i ==> !((#[trigger] self.proofs@[j]).coordinates@.contains(coordinate)
                        && self.proofs@[j].laws@.contains(law)),
            decreases self.proofs@.len() - i,
        {
            if contains_coordinate(&self.proofs[i].coordinates, coordinate) && contains_law(
                &self.proofs[i].laws,
                law,
            ) {
                return Ok(());
            }
            i = i + 1;
        }
        Err(Error::NoCoordinateProof(coordinate, law))
    }

    fn artifact_proof_exists(&self, p: Platform) -> (r: bool)
        ensures
            r == self.artifact_proved(p),
    {
        let release = &self.coordinates.release_tested;
        let mut i: usize = 0;
        while i < self.proofs.len()
            invariant
                release@ == self.release(),
                i <= self.proofs@.len(),
                forall|a: int, b: int|
                    0 <= a < i && 0 <= b < self.proofs@[a].coordinates@.len() ==> !((#[trigger] self.proofs@[a]).laws@.contains(
                        Law::Artifact,
                    ) && self.release().contains(#[trigger] self.proofs@[a].coordinates@[b])
                        && coordinate_platform(self.proofs@[a].coordinates@[b]) == p),
            decreases self.proofs@.len() - i,
        {
            let proof = &self.proofs[i];
            if contains_law(&proof.laws, Law::Artifact) {
                let mut j: usize = 0;
                while j < proof.coordinates.len()
                    invariant
                        release@ == self.release(),
                        i < self.proofs@.len(),
                        *proof == self.proofs@[i as int],
                        proof.laws@.contains(Law::Artifact),
                        j <= proof.coordinates@.len(),
                        forall|b: int|
                            0 <= b < j ==> !(self.release().contains(#[trigger] proof.coordinates@[b])
                                && coordinate_platform(proof.coordinates@[b]) == p),
                    decreases proof.coordinates@.len() - j,
                {
                    let c = proof.coordinates[j];
                    if contains_coordinate(release, c) && c.platform() == p {
                        assert(self.proofs@[i as int].coordinates@[j as int] == c);
                        assert(self.proofs@[i as int].laws@.contains(Law::Artifact));
                        assert(self.release().contains(self.proofs@[i as int].coordinates@[j as int]));
                        return true;
                    }
                    j = j + 1;
                }
            }
            i = i + 1;
        }
        false
    }

    fn require_delivery_artifacts(&self) -> (r: Result<(), Error>)
        requires
            self.proofs_checked(),
            self.obligations_met(),
        ensures
            r matches Err(e) ==> self.earlier_checks_pass(e),
            r is Ok <==> self.artifacts_valid(),
            r matches Err(e) ==> refusal_stage(e) == 5,
            r matches Err(e) ==> self.violation(e),
    {
        let platforms = self.release_platforms();
        let mut i: usize = 0;
        while i < platforms.len()
            invariant
                forall|p: Platform| platforms@.contains(p) <==> self.releases_on(p),
                i <= platforms@.len(),
                forall|j: int|
                    0 <= j < i ==> match delivery_for(self.delivery, #[trigger] platforms@[j]) {
                        Some(d) => delivery_produces_artifact(d) ==> self.artifact_proved(platforms@[j]),
                        None => true,
                    },
                forall|a: int, b: int|
                    0 <= a < b < platforms@.len() ==> platform_rank(platforms@[a]) < platform_rank(platforms@[b]),
                self.proofs_checked(),
                self.obligations_met(),
            decreases platforms@.len() - i,
        {
            let p = platforms[i];
            assert(platforms@.contains(p));
            assert(self.releases_on(p));
            assert forall|q: Platform|
                self.releases_on(q) && platform_rank(q) < platform_rank(p) implies #[trigger] self.platform_artifacted(
                q,
            ) by {
                assert(platforms@.contains(q));
                let w = choose|w: int| 0 <= w < platforms@.len() && platforms@[w] == q;
                if w >= i {
                    if w > i {
                        assert(platform_rank(platforms@[i as int]) < platform_rank(platforms@[w]));
                    }
                    assert(false);
                }
                assert(platforms@[w] == q);
            }
            match self.delivery.for_platform(p) {
                None => {},
                Some(d) => {
                    if d.produces_artifact() && !self.artifact_proof_exists(p) {
                        return Err(Error::MissingArtifactProof(d, p));
                    }
                },
            }
            i = i + 1;
        }
        assert forall|p: Platform| #[trigger] self.releases_on(p) implies match delivery_for(self.delivery, p) {
            Some(d) => delivery_produces_artifact(d) ==> self.artifact_proved(p),
            None => true,
        } by {
            assert(platforms@.contains(p));
            let j = choose|j: int| 0 <= j < platforms@.len() && platforms@[j] == p;
            assert(j < i);
        }
        Ok(())
    }
}


impl Contract {
    fn require_release_obligations(&self, c: Coordinate) -> (r: Result<(), Error>)
        requires
            self.release().contains(c),
        ensures
            r is Ok <==> forall|l: Law| #[trigger] release_obligation(self.profile(), c, l) ==> self.discharges_at(c, l),
            r matches Err(e) ==> refusal_stage(e) == 5,
            r matches Err(e) ==> self.violation(e),
            r matches Err(e) ==> e matches Error::NoCoordinateProof(x, l) && x == c && forall|k: Law|
                #[trigger] release_obligation(self.profile(), c, k) && law_order(k) < law_order(l) ==> self.discharges_at(c, k),
    {
        let host = self.require_coordinate_law(c, Law::Host);
        if host.is_err() {
            assert(release_obligation(self.profile(), c, Law::Host));
            return host;
        }
        match self.product.profile {
            Profile::NativeGui => {
                let first = self.require_coordinate_law(c, Law::FirstPresent);
                if first.is_err() {
                    assert(release_obligation(self.profile(), c, Law::FirstPresent));
                    return first;
                }
                let lifecycle = self.require_coordinate_law(c, Law::Lifecycle);
                if lifecycle.is_err() {
                    assert(release_obligation(self.profile(), c, Law::Lifecycle));
                    return lifecycle;
                }
                if c.display() == Some(DisplayBackend::X11) {
                    let acceptance = self.require_coordinate_law(c, Law::NativeAcceptance);
                    if acceptance.is_err() {
                        assert(release_obligation(self.profile(), c, Law::NativeAcceptance));
                        return acceptance;
                    }
                }
            },
            Profile::PortableCli | Profile::PlatformBound => {
                let lifecycle = self.require_coordinate_law(c, Law::Lifecycle);
                if lifecycle.is_err() {
                    assert(release_obligation(self.profile(), c, Law::Lifecycle));
                    return lifecycle;
                }
            },
            Profile::RustLibrary => {},
        }
        Ok(())
    }

    fn validate_proofs(&self) -> (r: Result<(), Error>)
        ensures
            r matches Err(e) ==> refusal_stage(e) == 5,
            r matches Err(e) ==> self.earlier_checks_pass(e),
            r is Ok <==> self.proofs_valid(),
            r matches Err(e) ==> self.violation(e),
    {
        if self.proofs.len() == 0 {
            return Err(Error::EmptyProofList);
        }
        if let Some(name) = duplicate_proof_name(&self.proofs) {
            return Err(Error::DuplicateProofName(name));
        }
        let carried = self.carried_coordinates();
        let mut i: usize = 0;
        while i < self.proofs.len()
            invariant
                carried@ == self.carried(),
                i <= self.proofs@.len(),
                self.proofs@.len() > 0,
                proof_names(self.proofs@).no_duplicates(),
                forall|j: int| 0 <= j < i ==> (#[trigger] self.proofs@[j]).well_formed(self.carried()),
            decreases self.proofs@.len() - i,
        {
            match self.proofs[i].validate(&carried) {
                Ok(()) => {},
                Err(e) => {
                    assert(self.proofs@[i as int].flaw(self.carried(), e));
                    assert(self.proofs@[i as int].earlier_checks_pass(self.carried(), e));
                    return Err(e);
                },
            }
            i = i + 1;
        }
        let source = self.require_global_law(Law::Source);
        if source.is_err() {
            assert(global_obligation(self.profile(), Law::Source));
            return source;
        }
        let security = self.require_global_law(Law::Security);
        if security.is_err() {
            assert(global_obligation(self.profile(), Law::Security));
            return security;
        }
        if self.product.profile != Profile::PlatformBound {
            let package = self.require_global_law(Law::SourcePackage);
            if package.is_err() {
                assert(global_obligation(self.profile(), Law::SourcePackage));
                return package;
            }
        }
        assert forall|l: Law| #[trigger] global_obligation(self.profile(), l) implies self.discharges_globally(l) by {}
        assert(self.proofs_checked());
        let mut k: usize = 0;
        while k < self.coordinates.supported.len()
            invariant
                k <= self.supported().len(),
                self.proofs_checked(),
                forall|l: Law| #[trigger] global_obligation(self.profile(), l) ==> self.discharges_globally(l),
                forall|j: int| 0 <= j < k ==> self.discharges_at(#[trigger] self.supported()[j], Law::Host),
            decreases self.supported().len() - k,
        {
            let c = self.coordinates.supported[k];
            assert(self.supported().contains(c));
            let host = self.require_coordinate_law(c, Law::Host);
            if host.is_err() {
                assert(self.supported()[k as int] == c);
                assert(self.first_unhosted(c));
                return host;
            }
            k = k + 1;
        }
        assert forall|c: Coordinate| #[trigger] self.supported().contains(c) implies self.discharges_at(c, Law::Host) by {
            let j = choose|j: int| 0 <= j < self.supported().len() && self.supported()[j] == c;
            assert(self.discharges_at(self.supported()[j], Law::Host));
        }
        let mut m: usize = 0;
        while m < self.coordinates.release_tested.len()
            invariant
                m <= self.release().len(),
                self.proofs_checked(),
                forall|l: Law| #[trigger] global_obligation(self.profile(), l) ==> self.discharges_globally(l),
                forall|c: Coordinate| #[trigger] self.supported().contains(c) ==> self.discharges_at(c, Law::Host),
                forall|j: int, l: Law|
                    0 <= j < m && #[trigger] release_obligation(self.profile(), #[trigger] self.release()[j], l)
                        ==> self.discharges_at(self.release()[j], l),
                forall|j: int| 0 <= j < m ==> self.release_met(#[trigger] self.release()[j]),
            decreases self.release().len() - m,
        {
            let c = self.coordinates.release_tested[m];
            assert(self.release().contains(c));
            let met = self.require_release_obligations(c);
            if met.is_err() {
                assert(self.release()[m as int] == c);
                return met;
            }
            assert(self.release_met(self.release()[m as int]));
            m = m + 1;
        }
        assert forall|c: Coordinate, l: Law|
            self.release().contains(c) && #[trigger] release_obligation(self.profile(), c, l) implies self.discharges_at(c, l) by {
            let j = choose|j: int| 0 <= j < self.release().len() && self.release()[j] == c;
            assert(release_obligation(self.profile(), self.release()[j], l));
        }
        self.require_delivery_artifacts()
    }

    /// Checks the whole contract. It is accepted exactly when it is valid; a refusal
    /// names a defect that the contract truly has, found at the first stage that fails.
    pub fn validate(&self) -> (r: Result<(), Error>)
        ensures
            r is Ok <==> self.valid(),
            r matches Err(e) ==> self.violation(e) && self.holds_before(refusal_stage(e)),
            r matches Err(e) ==> self.earlier_checks_pass(e),
    {
        if self.schema != SCHEMA {
            return Err(Error::UnsupportedSchema(self.schema));
        }
        self.validate_product()?;
        self.validate_coordinates()?;
        self.validate_envelope()?;
        self.validate_delivery()?;
        self.validate_proofs()
    }
}

/// The parent that `std::path::Path::parent` gives a path.
pub uninterp spec fn path_parent(path: Seq<char>) -> Option<Seq<char>>;

/// `std::path::Path::parent` on a UTF-8 path: the path without its final component,
/// documented to be `None` for the empty path and for a path that ends in a root
/// or prefix. Which component it drops is left to the name `path_parent`.
#[verifier::external_body]
fn parent_of(path: &str) -> (r: Option<String>)
    ensures
        match r {
            Some(p) => path_parent(path@) == Some(p@),
            None => path_parent(path@) is None,
        },
        path@.len() == 0 ==> r is None,
{
    match std::path::Path::new(path).parent() {
        Some(parent) => Some(parent.to_string_lossy().into_owned()),
        None => None,
    }
}

/// The workspace that a contract's parent directory names: that directory, or
/// `.` where the contract path names none.
pub fn workspace_from_parent(parent: Option<String>) -> (r: String)
    ensures
        r@ == match parent {
            Some(p) => if p@.len() > 0 {
                p@
            } else {
                "."@
            },
            None => "."@,
        },
{
    match parent {
        Some(p) => {
            if p.as_str().is_empty() {
                ".".to_owned()
            } else {
                p
            }
        },
        None => ".".to_owned(),
    }
}

/// The workspace of a contract: the directory that holds it, or `.` where the
/// contract path names no directory.
pub fn workspace_of(contract: &str) -> (r: String)
    ensures
        r@ == match path_parent(contract@) {
            Some(p) => if p.len() > 0 {
                p
            } else {
                "."@
            },
            None => "."@,
        },
{
    workspace_from_parent(parent_of(contract))
}


impl Coordinate {
    /// The coordinate that the text names; refused for any other text.
    pub fn parse(value: &str) -> (r: Result<Coordinate, Error>)
        ensures
            match r {
                Ok(c) => coordinate_name(c) == value@,
                Err(e) => e matches Error::UnknownCoordinate(v) && v@ == value@ && forall|c: Coordinate|
                    coordinate_name(c) != value@,
            },
    {
        match Coordinate::from_name(value) {
            Some(c) => Ok(c),
            None => Err(Error::UnknownCoordinate(value.to_owned())),
        }
    }
}

impl core::str::FromStr for Coordinate {
    type Err = Error;

    fn from_str(value: &str) -> (r: Result<Coordinate, Error>)
        ensures
            match r {
                Ok(c) => coordinate_name(c) == value@,
                Err(e) => e matches Error::UnknownCoordinate(v) && v@ == value@ && forall|c: Coordinate|
                    coordinate_name(c) != value@,
            },
    {
        Coordinate::parse(value)
    }
}

} // verus!
