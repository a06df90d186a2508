//! What the library refuses, and why.

use vstd::prelude::*;

use crate::contract::{Coordinate, Delivery, Law, Platform, Profile};

verus! {

/// A field of the product table that must not be blank.
#[derive(Clone, Copy, Debug, PartialEq, Eq, Structural)]
pub enum ProductField {
    Name,
    Package,
}

/// A field of the toolchain table that must not be blank.
#[derive(Clone, Copy, Debug, PartialEq, Eq, Structural)]
pub enum ToolchainField {
    Channel,
    Profile,
}

/// Every refusal of the library, each carrying what it is about.
#[derive(Clone, Debug)]
pub enum Error {
    /// The contract declares a schema other than the supported one.
    UnsupportedSchema(u32),
    /// `product.name` or `product.package` is blank.
    EmptyProductField(ProductField),
    /// The profile ships a binary but `product.binary` is absent.
    MissingBinary(Profile),
    /// `coordinates.release-tested` is empty.
    EmptyReleaseTested,
    /// A release-tested coordinate is listed twice.
    DuplicateReleaseTested(Coordinate),
    /// A supported coordinate is listed twice.
    DuplicateSupported(Coordinate),
    /// A coordinate is both release-tested and supported.
    ReleaseTestedAlsoSupported(Coordinate),
    /// A carried coordinate is also excluded.
    CarriedAlsoExcluded(Coordinate),
    /// An exclusion's reason is shorter than twelve bytes once trimmed.
    VagueExclusion(Coordinate),
    /// A coordinate is excluded twice.
    DuplicateExclusion(Coordinate),
    /// A baseline coordinate is neither carried nor excluded.
    UncoveredBaseline(Coordinate),
    /// A carried coordinate lies outside the profile's baseline.
    ForeignCoordinate(Coordinate, Profile),
    /// A release-tested platform has no delivery.
    MissingDelivery(Platform),
    /// A delivery cannot inhabit the platform it is declared for.
    DeliveryCannotInhabit(Delivery, Platform),
    /// A delivery on macOS or Windows has no explicit trust state.
    MissingTrust(Platform),
    /// The contract declares no proof.
    EmptyProofList,
    /// Two proofs share a name.
    DuplicateProofName(String),
    /// A proof name is not a slug.
    InvalidProofName(String),
    /// A proof discharges no law.
    ProofWithoutLaws(String),
    /// A proof lists a law twice.
    DuplicateLaw(String, Law),
    /// A proof's command is empty or holds an empty part.
    EmptyCommand(String),
    /// A proof lists a coordinate twice.
    DuplicateProofCoordinate(String, Coordinate),
    /// A proof's timeout lies outside one to 360 minutes.
    TimeoutOutOfRange(String, u16),
    /// A proof mixes global and coordinate laws.
    MixedLaws(String),
    /// A global proof declares coordinates.
    GlobalProofWithCoordinates(String),
    /// A coordinate proof declares no coordinate.
    CoordinateProofWithoutCoordinates(String),
    /// A proof names a coordinate that the contract does not carry.
    UncarriedProofCoordinate(String, Coordinate),
    /// No global proof discharges the law.
    NoGlobalProof(Law),
    /// No proof discharges the law at the coordinate.
    NoCoordinateProof(Coordinate, Law),
    /// A delivery that produces an artifact has no release-tested artifact proof.
    MissingArtifactProof(Delivery, Platform),
    /// Two plan nodes share an identifier.
    DuplicatePlanNode(String),
    /// The plan holds no node with the identifier.
    UnplannedNode(String),
    /// The contract holds no proof with the name.
    UnknownProof(String),
    /// A coordinate cannot be proved on the named host (operating system, architecture).
    ForeignHost(Coordinate, String, String),
    /// A nonempty inventory was recorded but the artifact directory is absent.
    AbsentArtifactDirectory(String),
    /// The artifacts on disk differ from the recorded inventory.
    InventoryMismatch(String),
    /// A receipt has another schema than the supported one.
    ReceiptSchema(String, u32),
    /// A receipt does not describe its planned node.
    ReceiptMismatch(String),
    /// A receipt proves another source than the one being judged (node, found, expected).
    ReceiptSourceMismatch(String, String, String),
    /// A receipt records a failed proof.
    FailedProof(String),
    /// No evidence was found for the planned node.
    MissingEvidence(String),
    /// More evidence was given than the plan has nodes (how many were given).
    SurplusEvidence(usize),
    /// The evidence holds a cell for no planned node.
    UnplannedCell(String),
    /// Package metadata holds no package with the name.
    MissingPackage(String),
    /// Package metadata holds several packages with the name.
    DuplicatePackage(String),
    /// `toolchain.channel` or `toolchain.profile` is blank.
    EmptyToolchainField(ToolchainField),
    /// A toolchain component or target is empty.
    EmptyToolchainEntry,
    /// A manifest declares a path dependency outside the repository
    /// (manifest, dependency table, dependency name, declared path).
    ExternalPathDependency(String, String, String, String),
    /// A Cargo configuration declares source `paths` overrides (the configuration file).
    CargoPathsOverride(String),
    /// Two staged release files would share a name, or one would shadow the ledger.
    StagingCollision(String),
    /// A text names no coordinate.
    UnknownCoordinate(String),
}

} // verus!
