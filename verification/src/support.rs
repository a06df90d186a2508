//! Judgment of evidence against the plan, and the public support ledger.

use vstd::prelude::*;

use crate::contract::{
    coordinate_arch, coordinate_os, coordinate_platform, copy_laws, delivery_for, trust_for, Contract, Coordinate, Delivery, Exclusion, Law,
    Platform, Profile, Proof, Trust,
};
use crate::digest::Artifact;
use crate::error::Error;
use crate::plan::{expansion, lemma_node_ids_of_expansion, node_ids, nodes_expand, planned_ids, Node, Plan};
use crate::receipt::{inventories_agree, node_id_of, proof_declared, same_inventory, Receipt, RECEIPT_SCHEMA};
use crate::text::{same_text, views};
use vstd::string::StrSliceExecFns;

verus! {

/// The only support-ledger schema this library writes.
pub const SUPPORT_SCHEMA: u32 = 1;

/// What was found in one planned evidence cell: its receipt, and the inventory of
/// its artifact directory, or `None` where that directory is absent.
#[derive(Clone, Debug)]
pub struct Evidence {
    pub receipt: Receipt,
    pub inventory: Option<Vec<Artifact>>,
}

/// A contract whose complete planned receipt graph has been judged.
pub struct Adjudication {
    pub contract: Contract,
    pub receipts: Vec<Receipt>,
    pub source: String,
}

/// Position `i` holds the first proof named `n`.
pub open spec fn first_named(proofs: Seq<Proof>, n: Seq<char>, i: int) -> bool {
    &&& 0 <= i < proofs.len()
    &&& proofs[i].name@ == n
    &&& forall|j: int| 0 <= j < i ==> (#[trigger] proofs[j]).name@ != n
}

/// The evidence is what the contract demands of the node with these properties,
/// for the source being judged.
pub open spec fn fits(
    c: Contract,
    id: Seq<char>,
    proof: Seq<char>,
    coordinate: Option<Coordinate>,
    laws: Seq<Law>,
    source: Seq<char>,
    ev: Evidence,
) -> bool {
    let r = ev.receipt;
    &&& r.schema == RECEIPT_SCHEMA
    &&& r.node@ == id
    &&& r.proof@ == proof
    &&& r.coordinate == coordinate
    &&& r.laws@ == laws
    &&& exists|i: int| first_named(c.proofs@, proof, i) && views(r.command@) == views(c.proofs@[i].run@)
    &&& (coordinate matches Some(x) ==> coordinate_os(x) == r.host.os@ && coordinate_arch(x) == r.host.arch@)
    &&& r.source@ == source
    &&& r.success
    &&& match ev.inventory {
        None => r.artifacts@.len() == 0,
        Some(v) => same_inventory(v@, r.artifacts@),
    }
}

/// The evidence fits the planned node.
pub open spec fn fits_node(c: Contract, n: Node, source: Seq<char>, ev: Evidence) -> bool {
    fits(c, n.id@, n.proof@, n.coordinate, n.laws@, source, ev)
}

/// The evidence fits the job of proof `e.0` at placement `e.1`.
pub open spec fn fits_job(c: Contract, e: (Proof, Option<Coordinate>), source: Seq<char>, ev: Evidence) -> bool {
    fits(c, node_id_of(e.0.name@, e.1), e.0.name@, e.1, e.0.laws@, source, ev)
}

/// `e` truthfully says why the evidence does not fit the node with these properties.
pub open spec fn misfit_at(
    c: Contract,
    id: Seq<char>,
    proof: Seq<char>,
    coordinate: Option<Coordinate>,
    laws: Seq<Law>,
    source: Seq<char>,
    ev: Evidence,
    e: Error,
) -> bool {
    match e {
        Error::ReceiptSchema(n, s) => n@ == id && s == ev.receipt.schema && s != RECEIPT_SCHEMA,
        Error::ReceiptMismatch(n) => n@ == id && !fits(c, id, proof, coordinate, laws, source, ev),
        Error::UnknownProof(p) => p@ == proof && forall|i: int|
            0 <= i < c.proofs@.len() ==> (#[trigger] c.proofs@[i]).name@ != p@,
        Error::ForeignHost(x, os, arch) => coordinate == Some(x) && os@ == ev.receipt.host.os@ && arch@
            == ev.receipt.host.arch@ && !(coordinate_os(x) == os@ && coordinate_arch(x) == arch@),
        Error::ReceiptSourceMismatch(n, found, expected) => n@ == id && found@ == ev.receipt.source@
            && expected@ == source && found@ != expected@,
        Error::FailedProof(n) => n@ == id && !ev.receipt.success,
        Error::AbsentArtifactDirectory(n) => n@ == id && ev.inventory is None
            && ev.receipt.artifacts@.len() > 0,
        Error::InventoryMismatch(n) => n@ == id && (ev.inventory matches Some(v) && !same_inventory(
            v@,
            ev.receipt.artifacts@,
        )),
        _ => false,
    }
}

/// Every check that `check_receipt` makes before the one that reports `e` passes:
/// the schema, the node that the receipt describes, its command, its host, its
/// source, its success, then its artifacts.
pub open spec fn misfit_ordered(
    c: Contract,
    id: Seq<char>,
    proof: Seq<char>,
    coordinate: Option<Coordinate>,
    laws: Seq<Law>,
    source: Seq<char>,
    ev: Evidence,
    e: Error,
) -> bool {
    let r = ev.receipt;
    let schema_ok = r.schema == RECEIPT_SCHEMA;
    let describes = r.node@ == id && r.proof@ == proof && r.coordinate == coordinate && r.laws@ == laws;
    let commanded = exists|i: int| first_named(c.proofs@, proof, i) && views(r.command@) == views(c.proofs@[i].run@);
    let hosted = coordinate matches Some(x) ==> coordinate_os(x) == r.host.os@ && coordinate_arch(x) == r.host.arch@;
    match e {
        Error::ReceiptMismatch(_) => schema_ok && (!describes || (proof_declared(c, proof) && !commanded)),
        Error::UnknownProof(_) => schema_ok && describes,
        Error::ForeignHost(_, _, _) => schema_ok && describes && commanded,
        Error::ReceiptSourceMismatch(_, _, _) => schema_ok && describes && commanded && hosted,
        Error::FailedProof(_) => schema_ok && describes && commanded && hosted && r.source@ == source,
        Error::AbsentArtifactDirectory(_) | Error::InventoryMismatch(_) => schema_ok && describes && commanded
            && hosted && r.source@ == source && r.success,
        _ => true,
    }
}

/// `e` truthfully says why the evidence does not fit the node.
pub open spec fn misfit(c: Contract, n: Node, source: Seq<char>, ev: Evidence, e: Error) -> bool {
    misfit_at(c, n.id@, n.proof@, n.coordinate, n.laws@, source, ev, e)
}

/// The evidence is the complete planned receipt graph of the contract for the
/// source, in plan order, and no evidence cell lies outside the plan.
pub open spec fn judged(c: Contract, source: Seq<char>, cells: Seq<String>, evidence: Seq<Evidence>) -> bool {
    let jobs = expansion(c.proofs@);
    &&& planned_ids(c.proofs@).no_duplicates()
    &&& forall|i: int| 0 <= i < cells.len() ==> planned_ids(c.proofs@).contains((#[trigger] cells[i])@)
    &&& evidence.len() == jobs.len()
    &&& forall|k: int| 0 <= k < jobs.len() ==> fits_job(c, #[trigger] jobs[k], source, evidence[k])
}

/// `e` truthfully says why the evidence is not judged complete.
pub open spec fn refusal(c: Contract, source: Seq<char>, cells: Seq<String>, evidence: Seq<Evidence>, e: Error) -> bool {
    let jobs = expansion(c.proofs@);
    let distinct = planned_ids(c.proofs@).no_duplicates();
    let owned = distinct && forall|i: int| 0 <= i < cells.len() ==> planned_ids(c.proofs@).contains((#[trigger] cells[i])@);
    match e {
        Error::DuplicatePlanNode(id) => crate::contract::first_repeat(planned_ids(c.proofs@), id@),
        Error::UnplannedCell(n) => distinct && exists|i: int|
            0 <= i < cells.len() && (#[trigger] cells[i])@ == n@ && !planned_ids(c.proofs@).contains(n@)
                && forall|j: int| 0 <= j < i ==> planned_ids(c.proofs@).contains((#[trigger] cells[j])@),
        Error::MissingEvidence(id) => owned && evidence.len() < jobs.len() && id@ == planned_ids(c.proofs@)[evidence.len() as int]
            && forall|j: int| 0 <= j < evidence.len() ==> fits_job(c, #[trigger] jobs[j], source, evidence[j]),
        Error::SurplusEvidence(n) => owned && n == evidence.len() && evidence.len() > jobs.len() && forall|j: int|
            0 <= j < jobs.len() ==> fits_job(c, #[trigger] jobs[j], source, evidence[j]),
        _ => owned && exists|k: int|
            0 <= k < jobs.len() && k < evidence.len() && misfit_at(
                c,
                node_id_of(jobs[k].0.name@, jobs[k].1),
                jobs[k].0.name@,
                jobs[k].1,
                jobs[k].0.laws@,
                source,
                evidence[k],
                e,
            ) && misfit_ordered(
                c,
                node_id_of(jobs[k].0.name@, jobs[k].1),
                jobs[k].0.name@,
                jobs[k].1,
                jobs[k].0.laws@,
                source,
                evidence[k],
                e,
            ) && forall|j: int| 0 <= j < k ==> fits_job(c, #[trigger] jobs[j], source, evidence[j]),
    }
}

fn same_laws(a: &Vec<Law>, b: &Vec<Law>) -> (r: bool)
    ensures
        r == (a@ == b@),
{
    if a.len() != b.len() {
        return false;
    }
    let mut i: usize = 0;
    while i < a.len()
        invariant
            a@.len() == b@.len(),
            i <= a@.len(),
            forall|k: int| 0 <= k < i ==> a@[k] == b@[k],
        decreases a@.len() - i,
    {
        if a[i] != b[i] {
            return false;
        }
        i = i + 1;
    }
    assert(a@ =~= b@);
    true
}

fn same_views(a: &Vec<String>, b: &Vec<String>) -> (r: bool)
    ensures
        r == (views(a@) == views(b@)),
{
    if a.len() != b.len() {
        assert(views(a@).len() != views(b@).len());
        return false;
    }
    let mut i: usize = 0;
    while i < a.len()
        invariant
            a@.len() == b@.len(),
            i <= a@.len(),
            forall|k: int| 0 <= k < i ==> a@[k]@ == b@[k]@,
        decreases a@.len() - i,
    {
        if !same_text(a[i].as_str(), b[i].as_str()) {
            assert(views(a@)[i as int] != views(b@)[i as int]);
            return false;
        }
        i = i + 1;
    }
    assert(views(a@) =~= views(b@));
    true
}

/// The command of the first proof named `proof`.
fn proof_command<'a>(contract: &'a Contract, proof: &str) -> (r: Result<&'a Vec<String>, Error>)
    ensures
        match r {
            Ok(run) => exists|i: int| first_named(contract.proofs@, proof@, i) && *run == contract.proofs@[i].run,
            Err(e) => e matches Error::UnknownProof(p) && p@ == proof@ && forall|i: int|
                0 <= i < contract.proofs@.len() ==> (#[trigger] contract.proofs@[i]).name@ != proof@,
        },
{
    match contract.proof_named(proof) {
        Some(p) => {
            proof {
                let i = choose|i: int|
                    0 <= i < contract.proofs@.len() && contract.proofs@[i] == *p && p.name@ == proof@
                        && forall|j: int| 0 <= j < i ==> (#[trigger] contract.proofs@[j]).name@ != proof@;
                assert(first_named(contract.proofs@, proof@, i));
            }
            Ok(&p.run)
        },
        None => Err(Error::UnknownProof(proof.to_owned())),
    }
}

/// Checks one receipt, and the inventory of its artifact directory, against its
/// planned node: the schema, the node, proof, coordinate, laws and command that it
/// records, the source it proves, its success, and its artifacts.
pub fn check_receipt(contract: &Contract, node: &Node, source: &str, ev: &Evidence) -> (r: Result<(), Error>)
    ensures
        r is Ok <==> fits_node(*contract, *node, source@, *ev),
        r matches Err(e) ==> misfit(*contract, *node, source@, *ev, e),
        r matches Err(e) ==> misfit_ordered(*contract, node.id@, node.proof@, node.coordinate, node.laws@, source@, *ev, e),
{
    let receipt = &ev.receipt;
    if receipt.schema != RECEIPT_SCHEMA {
        return Err(Error::ReceiptSchema(node.id.clone(), receipt.schema));
    }
    if !same_text(receipt.node.as_str(), node.id.as_str()) || !same_text(
        receipt.proof.as_str(),
        node.proof.as_str(),
    ) || receipt.coordinate != node.coordinate || !same_laws(&receipt.laws, &node.laws) {
        return Err(Error::ReceiptMismatch(node.id.clone()));
    }
    let run = match proof_command(contract, node.proof.as_str()) {
        Ok(run) => run,
        Err(e) => {
            return Err(e);
        },
    };
    if !same_views(&receipt.command, run) {
        proof {
            assert forall|i: int| first_named(contract.proofs@, node.proof@, i) implies views(receipt.command@)
                != views(contract.proofs@[i].run@) by {
                let w = choose|w: int| first_named(contract.proofs@, node.proof@, w) && *run == contract.proofs@[w].run;
                if i < w {
                    assert(contract.proofs@[i].name@ != node.proof@);
                } else if w < i {
                    assert(contract.proofs@[w].name@ != node.proof@);
                }
            }
        }
        return Err(Error::ReceiptMismatch(node.id.clone()));
    }
    if let Some(c) = node.coordinate {
        if !c.inhabits(receipt.host.os.as_str(), receipt.host.arch.as_str()) {
            return Err(Error::ForeignHost(c, receipt.host.os.clone(), receipt.host.arch.clone()));
        }
    }
    if !same_text(receipt.source.as_str(), source) {
        return Err(Error::ReceiptSourceMismatch(node.id.clone(), receipt.source.clone(), source.to_owned()));
    }
    if !receipt.success {
        return Err(Error::FailedProof(node.id.clone()));
    }
    match &ev.inventory {
        None => {
            if receipt.artifacts.len() != 0 {
                return Err(Error::AbsentArtifactDirectory(node.id.clone()));
            }
        },
        Some(v) => {
            if !inventories_agree(v, &receipt.artifacts) {
                return Err(Error::InventoryMismatch(node.id.clone()));
            }
        },
    }
    Ok(())
}

/// Refuses an evidence cell that no planned node owns.
pub fn reject_alien_cells(plan: &Plan, cells: &Vec<String>) -> (r: Result<(), Error>)
    ensures
        r is Ok <==> forall|i: int| 0 <= i < cells@.len() ==> node_ids(plan.nodes@).contains((#[trigger] cells@[i])@),
        r matches Err(e) ==> e matches Error::UnplannedCell(n) && exists|i: int|
            0 <= i < cells@.len() && (#[trigger] cells@[i])@ == n@ && !node_ids(plan.nodes@).contains(n@)
                && forall|j: int| 0 <= j < i ==> node_ids(plan.nodes@).contains((#[trigger] cells@[j])@),
{
    let mut i: usize = 0;
    while i < cells.len()
        invariant
            i <= cells@.len(),
            forall|k: int| 0 <= k < i ==> node_ids(plan.nodes@).contains((#[trigger] cells@[k])@),
        decreases cells@.len() - i,
    {
        match plan.node(cells[i].as_str()) {
            Some(n) => {
                proof {
                    let w = choose|w: int| 0 <= w < plan.nodes@.len() && plan.nodes@[w] == *n && n.id@ == cells@[i as int]@
                        && forall|j: int| 0 <= j < w ==> (#[trigger] plan.nodes@[j]).id@ != cells@[i as int]@;
                    assert(node_ids(plan.nodes@)[w] == cells@[i as int]@);
                }
            },
            None => {
                proof {
                    assert forall|w: int| 0 <= w < node_ids(plan.nodes@).len() implies node_ids(plan.nodes@)[w]
                        != cells@[i as int]@ by {
                        assert(plan.nodes@[w].id@ != cells@[i as int]@);
                    }
                }
                return Err(Error::UnplannedCell(cells[i].clone()));
            },
        }
        i = i + 1;
    }
    Ok(())
}


impl Adjudication {
    /// Judges the evidence of a contract for a source: the plan must forge, every
    /// evidence cell must belong to a planned node, and every planned node, in plan
    /// order, must have evidence that fits it. On success the judgment holds the
    /// contract, the source and the receipts in plan order.
    pub fn judge(contract: Contract, source: String, cells: &Vec<String>, evidence: Vec<Evidence>) -> (r: Result<
        Adjudication,
        Error,
    >)
        ensures
            r is Ok <==> judged(contract, source@, cells@, evidence@),
            r matches Ok(a) ==> {
                &&& a.contract == contract
                &&& a.source == source
                &&& a.receipts@ == evidence@.map_values(|e: Evidence| e.receipt)
            },
            r matches Err(e) ==> refusal(contract, source@, cells@, evidence@, e),
    {
        let ghost jobs = expansion(contract.proofs@);
        let plan = match Plan::forge(&contract) {
            Ok(plan) => plan,
            Err(e) => {
                return Err(e);
            },
        };
        proof {
            lemma_node_ids_of_expansion(plan.nodes@, contract.proofs@);
        }
        match reject_alien_cells(&plan, cells) {
            Ok(()) => {},
            Err(e) => {
                return Err(e);
            },
        }
        let n = plan.nodes.len();
        let mut k: usize = 0;
        while k < n
            invariant
                n == plan.nodes@.len(),
                n == jobs.len(),
                jobs == expansion(contract.proofs@),
                nodes_expand(plan.nodes@, contract.proofs@),
                node_ids(plan.nodes@) == planned_ids(contract.proofs@),
                k <= n,
                k <= evidence@.len(),
                forall|j: int| 0 <= j < k ==> j < evidence@.len() && fits_job(contract, #[trigger] jobs[j], source@, evidence@[j]),
                planned_ids(contract.proofs@).no_duplicates(),
                forall|i: int| 0 <= i < cells@.len() ==> planned_ids(contract.proofs@).contains((#[trigger] cells@[i])@),
            decreases n - k,
        {
            assert(plan.nodes@[k as int].describes(jobs[k as int].0, jobs[k as int].1));
            if k >= evidence.len() {
                assert(node_ids(plan.nodes@)[k as int] == plan.nodes@[k as int].id@);
                return Err(Error::MissingEvidence(plan.nodes[k].id.clone()));
            }
            match check_receipt(&contract, &plan.nodes[k], source.as_str(), &evidence[k]) {
                Ok(()) => {},
                Err(e) => {
                    assert(misfit_ordered(
                        contract,
                        node_id_of(jobs[k as int].0.name@, jobs[k as int].1),
                        jobs[k as int].0.name@,
                        jobs[k as int].1,
                        jobs[k as int].0.laws@,
                        source@,
                        evidence@[k as int],
                        e,
                    ));
                    return Err(e);
                },
            }
            k = k + 1;
        }
        if evidence.len() > n {
            return Err(Error::SurplusEvidence(evidence.len()));
        }
        let ghost all = evidence@;
        let mut rest = evidence;
        let mut receipts: Vec<Receipt> = Vec::new();
        let mut m: usize = 0;
        while m < n
            invariant
                n == all.len(),
                m <= n,
                rest@ == all.subrange(m as int, n as int),
                receipts@ == all.subrange(0, m as int).map_values(|e: Evidence| e.receipt),
            decreases n - m,
        {
            let ev = rest.remove(0);
            receipts.push(ev.receipt);
            m = m + 1;
            assert(rest@ =~= all.subrange(m as int, n as int));
            assert(receipts@ =~= all.subrange(0, m as int).map_values(|e: Evidence| e.receipt));
        }
        assert(all.subrange(0, n as int) =~= all);
        Ok(Adjudication { contract, receipts, source })
    }
}


/// The package metadata that the support ledger reports.
#[derive(Clone, Debug)]
pub struct CargoPackage {
    pub name: String,
    pub version: String,
    pub repository: Option<String>,
}

/// The public support ledger.
#[derive(Clone, Debug)]
pub struct SupportManifest {
    pub schema: u32,
    pub product: SupportProduct,
    pub source: SupportSource,
    pub release_tested: Vec<CoordinateSupport>,
    pub supported: Vec<CoordinateSupport>,
    pub exclusions: Vec<Exclusion>,
    pub global_proofs: Vec<ProofEvidence>,
    pub artifacts: Vec<ArtifactEvidence>,
}

#[derive(Clone, Debug)]
pub struct SupportProduct {
    pub name: String,
    pub package: String,
    pub version: String,
    pub profile: Profile,
    pub identifier: Option<String>,
}

#[derive(Clone, Debug)]
pub struct SupportSource {
    pub repository: Option<String>,
    pub commit: String,
    pub tag: Option<String>,
}

/// What the ledger says of one carried coordinate.
#[derive(Clone, Debug)]
pub struct CoordinateSupport {
    pub coordinate: Coordinate,
    pub platform: Platform,
    pub delivery: Option<Delivery>,
    pub trust: Option<Trust>,
    pub proofs: Vec<ProofEvidence>,
}

/// What the ledger says of one judged receipt.
#[derive(Clone, Debug)]
pub struct ProofEvidence {
    pub node: String,
    pub proof: String,
    pub laws: Vec<Law>,
    pub run_url: Option<String>,
    pub elapsed_milliseconds: u128,
}

/// One released artifact and the receipt that sealed it.
#[derive(Clone, Debug)]
pub struct ArtifactEvidence {
    pub node: String,
    pub proof: String,
    pub coordinate: Option<Coordinate>,
    pub artifact: Artifact,
}

/// The receipts placed at `placement`, in order.
pub open spec fn placed(receipts: Seq<Receipt>, placement: Option<Coordinate>) -> Seq<Receipt>
    decreases receipts.len(),
{
    if receipts.len() == 0 {
        seq![]
    } else {
        placed(receipts.drop_last(), placement) + if receipts.last().coordinate == placement {
            seq![receipts.last()]
        } else {
            seq![]
        }
    }
}

/// Every artifact of every receipt, with the receipt that recorded it, in order.
pub open spec fn artifact_rows(receipts: Seq<Receipt>) -> Seq<(Receipt, Artifact)>
    decreases receipts.len(),
{
    if receipts.len() == 0 {
        seq![]
    } else {
        let r = receipts.last();
        artifact_rows(receipts.drop_last()) + r.artifacts@.map_values(|a: Artifact| (r, a))
    }
}

impl ProofEvidence {
    /// The evidence reports the receipt.
    pub open spec fn reports(self, r: Receipt) -> bool {
        &&& self.node == r.node
        &&& self.proof == r.proof
        &&& self.laws@ == r.laws@
        &&& self.run_url == r.run_url
        &&& self.elapsed_milliseconds == r.elapsed_milliseconds
    }
}

/// Each evidence reports the receipt at its position.
pub open spec fn reports_all(evidence: Seq<ProofEvidence>, receipts: Seq<Receipt>) -> bool {
    evidence.len() == receipts.len() && forall|i: int| 0 <= i < receipts.len() ==> (#[trigger] evidence[i]).reports(receipts[i])
}

impl CoordinateSupport {
    /// The entry is what the judgment says of the coordinate.
    pub open spec fn describes(self, a: Adjudication, c: Coordinate) -> bool {
        &&& self.coordinate == c
        &&& self.platform == coordinate_platform(c)
        &&& self.delivery == delivery_for(a.contract.delivery, coordinate_platform(c))
        &&& self.trust == trust_for(a.contract.trust, coordinate_platform(c))
        &&& reports_all(self.proofs@, placed(a.receipts@, Some(c)))
    }
}

impl ArtifactEvidence {
    /// The entry reports the artifact as recorded by the receipt.
    pub open spec fn reports(self, row: (Receipt, Artifact)) -> bool {
        &&& self.node == row.0.node
        &&& self.proof == row.0.proof
        &&& self.coordinate == row.0.coordinate
        &&& self.artifact == row.1
    }
}

fn copy_option_string(o: &Option<String>) -> (r: Option<String>)
    ensures
        r == *o,
{
    match o {
        Some(s) => Some(s.clone()),
        None => None,
    }
}

fn copy_artifact(a: &Artifact) -> (r: Artifact)
    ensures
        r == *a,
{
    Artifact { path: a.path.clone(), bytes: a.bytes, sha256: a.sha256.clone() }
}

fn copy_exclusions(v: &Vec<Exclusion>) -> (r: Vec<Exclusion>)
    ensures
        r@ == v@,
{
    let mut out: Vec<Exclusion> = Vec::new();
    let mut i: usize = 0;
    while i < v.len()
        invariant
            i <= v@.len(),
            out@ == v@.subrange(0, i as int),
        decreases v@.len() - i,
    {
        out.push(Exclusion { coordinate: v[i].coordinate, reason: v[i].reason.clone() });
        i = i + 1;
        assert(out@ =~= v@.subrange(0, i as int));
    }
    assert(out@ =~= v@);
    out
}

impl ProofEvidence {
    /// What the ledger says of a receipt.
    pub fn from_receipt(receipt: &Receipt) -> (r: ProofEvidence)
        ensures
            r.reports(*receipt),
    {
        ProofEvidence {
            node: receipt.node.clone(),
            proof: receipt.proof.clone(),
            laws: copy_laws(&receipt.laws),
            run_url: copy_option_string(&receipt.run_url),
            elapsed_milliseconds: receipt.elapsed_milliseconds,
        }
    }
}

fn evidence_placed(receipts: &Vec<Receipt>, placement: Option<Coordinate>) -> (r: Vec<ProofEvidence>)
    ensures
        reports_all(r@, placed(receipts@, placement)),
{
    let mut out: Vec<ProofEvidence> = Vec::new();
    let mut i: usize = 0;
    while i < receipts.len()
        invariant
            i <= receipts@.len(),
            reports_all(out@, placed(receipts@.subrange(0, i as int), placement)),
        decreases receipts@.len() - i,
    {
        assert(receipts@.subrange(0, i + 1).drop_last() =~= receipts@.subrange(0, i as int));
        if receipts[i].coordinate == placement {
            out.push(ProofEvidence::from_receipt(&receipts[i]));
        }
        i = i + 1;
    }
    assert(receipts@.subrange(0, receipts@.len() as int) =~= receipts@);
    out
}

fn artifact_evidence(receipts: &Vec<Receipt>) -> (r: Vec<ArtifactEvidence>)
    ensures
        r@.len() == artifact_rows(receipts@).len(),
        forall|k: int| 0 <= k < r@.len() ==> (#[trigger] r@[k]).reports(artifact_rows(receipts@)[k]),
{
    let mut out: Vec<ArtifactEvidence> = Vec::new();
    let mut i: usize = 0;
    while i < receipts.len()
        invariant
            i <= receipts@.len(),
            out@.len() == artifact_rows(receipts@.subrange(0, i as int)).len(),
            forall|k: int| 0 <= k < out@.len() ==> (#[trigger] out@[k]).reports(artifact_rows(receipts@.subrange(0, i as int))[k]),
        decreases receipts@.len() - i,
    {
        let receipt = &receipts[i];
        let ghost before = out@;
        let ghost prior = artifact_rows(receipts@.subrange(0, i as int));
        assert(receipts@.subrange(0, i + 1).drop_last() =~= receipts@.subrange(0, i as int));
        let mut j: usize = 0;
        while j < receipt.artifacts.len()
            invariant
                i < receipts@.len(),
                *receipt == receipts@[i as int],
                prior == artifact_rows(receipts@.subrange(0, i as int)),
                before.len() == prior.len(),
                forall|k: int| 0 <= k < before.len() ==> (#[trigger] before[k]).reports(prior[k]),
                j <= receipt.artifacts@.len(),
                out@.len() == before.len() + j,
                forall|k: int| 0 <= k < before.len() ==> out@[k] == before[k],
                forall|k: int|
                    0 <= k < j ==> (#[trigger] out@[before.len() + k]).reports((*receipt, receipt.artifacts@[k])),
            decreases receipt.artifacts@.len() - j,
        {
            out.push(
                ArtifactEvidence {
                    node: receipt.node.clone(),
                    proof: receipt.proof.clone(),
                    coordinate: receipt.coordinate,
                    artifact: copy_artifact(&receipt.artifacts[j]),
                },
            );
            j = j + 1;
        }
        i = i + 1;
        assert forall|k: int| 0 <= k < out@.len() implies (#[trigger] out@[k]).reports(
            artifact_rows(receipts@.subrange(0, i as int))[k],
        ) by {
            if k < before.len() {
                assert(out@[k] == before[k]);
            } else {
                assert(out@[before.len() + (k - before.len())].reports((*receipt, receipt.artifacts@[k - before.len()])));
            }
        }
    }
    assert(receipts@.subrange(0, receipts@.len() as int) =~= receipts@);
    out
}

impl Adjudication {
    /// What the ledger says of one carried coordinate.
    fn coordinate(&self, coordinate: Coordinate) -> (r: CoordinateSupport)
        ensures
            r.describes(*self, coordinate),
    {
        let platform = coordinate.platform();
        CoordinateSupport {
            coordinate,
            platform,
            delivery: self.contract.delivery.for_platform(platform),
            trust: self.contract.trust.for_platform(platform),
            proofs: evidence_placed(&self.receipts, Some(coordinate)),
        }
    }

    fn coordinates(&self, coordinates: &Vec<Coordinate>) -> (r: Vec<CoordinateSupport>)
        ensures
            r@.len() == coordinates@.len(),
            forall|i: int| 0 <= i < coordinates@.len() ==> (#[trigger] r@[i]).describes(*self, coordinates@[i]),
    {
        let mut out: Vec<CoordinateSupport> = Vec::new();
        let mut i: usize = 0;
        while i < coordinates.len()
            invariant
                i <= coordinates@.len(),
                out@.len() == i,
                forall|k: int| 0 <= k < i ==> (#[trigger] out@[k]).describes(*self, coordinates@[k]),
            decreases coordinates@.len() - i,
        {
            out.push(self.coordinate(coordinates[i]));
            i = i + 1;
        }
        out
    }

    /// The public support ledger of the judgment, for the package metadata and the
    /// release tag it is published under.
    pub fn support(&self, package: &CargoPackage, tag: Option<String>) -> (r: SupportManifest)
        ensures
            r.schema == SUPPORT_SCHEMA,
            r.product.name == self.contract.product.name,
            r.product.package == self.contract.product.package,
            r.product.version == package.version,
            r.product.profile == self.contract.product.profile,
            r.product.identifier == self.contract.product.identifier,
            r.source.repository == package.repository,
            r.source.commit == self.source,
            r.source.tag == tag,
            r.release_tested@.len() == self.contract.release().len(),
            forall|i: int|
                0 <= i < self.contract.release().len() ==> (#[trigger] r.release_tested@[i]).describes(
                    *self,
                    self.contract.release()[i],
                ),
            r.supported@.len() == self.contract.supported().len(),
            forall|i: int|
                0 <= i < self.contract.supported().len() ==> (#[trigger] r.supported@[i]).describes(
                    *self,
                    self.contract.supported()[i],
                ),
            r.exclusions@ == self.contract.exclusions@,
            reports_all(r.global_proofs@, placed(self.receipts@, None)),
            r.artifacts@.len() == artifact_rows(self.receipts@).len(),
            forall|k: int| 0 <= k < r.artifacts@.len() ==> (#[trigger] r.artifacts@[k]).reports(artifact_rows(self.receipts@)[k]),
    {
        SupportManifest {
            schema: SUPPORT_SCHEMA,
            product: SupportProduct {
                name: self.contract.product.name.clone(),
                package: self.contract.product.package.clone(),
                version: package.version.clone(),
                profile: self.contract.product.profile,
                identifier: copy_option_string(&self.contract.product.identifier),
            },
            source: SupportSource {
                repository: copy_option_string(&package.repository),
                commit: self.source.clone(),
                tag,
            },
            release_tested: self.coordinates(&self.contract.coordinates.release_tested),
            supported: self.coordinates(&self.contract.coordinates.supported),
            exclusions: copy_exclusions(&self.contract.exclusions),
            global_proofs: evidence_placed(&self.receipts, None),
            artifacts: artifact_evidence(&self.receipts),
        }
    }
}

/// The one package named `name` in the metadata.
pub fn select_package(packages: Vec<CargoPackage>, name: &str) -> (r: Result<CargoPackage, Error>)
    ensures
        match r {
            Ok(p) => p.name@ == name@ && packages@.contains(p) && forall|i: int, j: int|
                0 <= i < j < packages@.len() ==> !((#[trigger] packages@[i]).name@ == name@
                    && (#[trigger] packages@[j]).name@ == name@),
            Err(e) => match e {
                Error::MissingPackage(n) => n@ == name@ && forall|i: int|
                    0 <= i < packages@.len() ==> (#[trigger] packages@[i]).name@ != name@,
                Error::DuplicatePackage(n) => n@ == name@ && exists|i: int, j: int|
                    0 <= i < j < packages@.len() && (#[trigger] packages@[i]).name@ == name@
                        && (#[trigger] packages@[j]).name@ == name@,
                _ => false,
            },
        },
{
    let ghost all = packages@;
    let mut found: Option<usize> = None;
    let mut i: usize = 0;
    while i < packages.len()
        invariant
            all == packages@,
            i <= all.len(),
            match found {
                Some(f) => f < i && all[f as int].name@ == name@ && forall|k: int|
                    0 <= k < i && k != f ==> (#[trigger] all[k]).name@ != name@,
                None => forall|k: int| 0 <= k < i ==> (#[trigger] all[k]).name@ != name@,
            },
        decreases all.len() - i,
    {
        if same_text(packages[i].name.as_str(), name) {
            if let Some(f) = found {
                assert(all[f as int].name@ == name@ && all[i as int].name@ == name@);
                return Err(Error::DuplicatePackage(name.to_owned()));
            }
            found = Some(i);
        }
        i = i + 1;
    }
    match found {
        None => Err(Error::MissingPackage(name.to_owned())),
        Some(f) => {
            let mut packages = packages;
            let p = packages.remove(f);
            assert(all.contains(p)) by {
                assert(all[f as int] == p);
            }
            assert forall|a: int, b: int| 0 <= a < b < all.len() implies !((#[trigger] all[a]).name@ == name@
                && (#[trigger] all[b]).name@ == name@) by {
                if a != f {
                } else {
                    assert(b != f);
                }
            }
            Ok(p)
        },
    }
}

/// The release tag of a CI run: its ref name where its ref type is `tag`.
pub fn github_tag(ref_type: Option<&str>, ref_name: Option<String>) -> (r: Option<String>)
    ensures
        r == (if ref_type matches Some(t) && t@ == "tag"@ {
            ref_name
        } else {
            None
        }),
{
    match ref_type {
        Some(t) => {
            if same_text(t, "tag") {
                ref_name
            } else {
                None
            }
        },
        None => None,
    }
}

/// The path that `std::path::Path::join` gives a base and a tail.
pub uninterp spec fn path_joined(base: Seq<char>, tail: Seq<char>) -> Seq<char>;

/// `std::path::Path::join` on UTF-8 paths: the tail adjoined to the base by the
/// platform's rules (a separator between them where the base needs one; an
/// absolute tail replaces the base). Which text results is left to the name
/// `path_joined`.
#[verifier::external_body]
fn joined_path(base: &str, tail: &str) -> (r: String)
    ensures
        r@ == path_joined(base@, tail@),
{
    std::path::Path::new(base).join(tail).to_string_lossy().into_owned()
}

/// Where the support ledger is written inside an evidence root: `support.json`
/// joined to the root as `Path::join` joins it.
pub fn support_path(root: &str) -> (r: String)
    ensures
        r@ == path_joined(root@, "support.json"@),
{
    joined_path(root, "support.json")
}


/// The file name under which an artifact is staged: the last `/`-separated segment of its path.
pub open spec fn staged_name(path: Seq<char>) -> Seq<char>
    decreases path.len(),
{
    if path.len() == 0 {
        seq![]
    } else if path.last() == '/' {
        seq![]
    } else {
        staged_name(path.drop_last()).push(path.last())
    }
}

/// The release directory's names, in ledger order, are distinct, and none shadows the ledger itself.
pub open spec fn stageable(names: Seq<Seq<char>>) -> bool {
    names.no_duplicates() && forall|i: int| 0 <= i < names.len() ==> (#[trigger] names[i]) != "support.json"@
}

proof fn lemma_staged_name_suffix(path: Seq<char>, k: int)
    requires
        0 <= k <= path.len(),
        forall|j: int| k <= j < path.len() ==> path[j] != '/',
        k == 0 || path[k - 1] == '/',
    ensures
        staged_name(path) == path.subrange(k, path.len() as int),
    decreases path.len(),
{
    if path.len() > k {
        lemma_staged_name_suffix(path.drop_last(), k);
        assert(path.subrange(k, path.len() as int) =~= path.drop_last().subrange(k, path.len() - 1).push(path.last()));
    } else if k > 0 {
        assert(path.last() == '/');
        assert(path.subrange(k, path.len() as int) =~= Seq::<char>::empty());
    } else {
        assert(path.subrange(k, path.len() as int) =~= Seq::<char>::empty());
    }
}

fn staged_file_name(path: &str) -> (r: String)
    ensures
        r@ == staged_name(path@),
{
    let chars = crate::text::chars_of(path);
    let n = chars.len();
    let mut k: usize = n;
    while k > 0 && chars[k - 1] != '/'
        invariant
            chars@ == path@,
            n == chars@.len(),
            k <= n,
            forall|j: int| k <= j < n ==> chars@[j] != '/',
        decreases k,
    {
        k = k - 1;
    }
    proof {
        lemma_staged_name_suffix(path@, k as int);
    }
    path.substring_char(k, n).to_owned()
}

/// The names under which the ledger's artifacts are staged in a flat release
/// directory beside `support.json`; refused where two would collide.
pub fn stage_names(manifest: &SupportManifest) -> (r: Result<Vec<String>, Error>)
    ensures
        match r {
            Ok(names) => views(names@) == manifest.artifacts@.map_values(|a: ArtifactEvidence| staged_name(a.artifact.path@))
                && stageable(views(names@)),
            Err(e) => e matches Error::StagingCollision(n) && !stageable(
                manifest.artifacts@.map_values(|a: ArtifactEvidence| staged_name(a.artifact.path@)),
            ) && (n@ == "support.json"@ || exists|i: int, j: int|
                0 <= i < j < manifest.artifacts@.len() && staged_name(manifest.artifacts@[i].artifact.path@) == n@
                    && staged_name(manifest.artifacts@[j].artifact.path@) == n@),
        },
{
    let ghost all = manifest.artifacts@.map_values(|a: ArtifactEvidence| staged_name(a.artifact.path@));
    let mut names: Vec<String> = Vec::new();
    let mut i: usize = 0;
    while i < manifest.artifacts.len()
        invariant
            all == manifest.artifacts@.map_values(|a: ArtifactEvidence| staged_name(a.artifact.path@)),
            i <= manifest.artifacts@.len(),
            views(names@) == all.subrange(0, i as int),
            stageable(views(names@)),
        decreases manifest.artifacts@.len() - i,
    {
        let name = staged_file_name(manifest.artifacts[i].artifact.path.as_str());
        if same_text(name.as_str(), "support.json") {
            assert(all[i as int] == "support.json"@);
            assert(!stageable(all));
            return Err(Error::StagingCollision(name));
        }
        let mut j: usize = 0;
        while j < names.len()
            invariant
                views(names@) == all.subrange(0, i as int),
                names@.len() == i,
                i < all.len(),
                all.len() == manifest.artifacts@.len(),
                all == manifest.artifacts@.map_values(|a: ArtifactEvidence| staged_name(a.artifact.path@)),
                name@ == all[i as int],
                j <= names@.len(),
                forall|k: int| 0 <= k < j ==> names@[k]@ != name@,
            decreases names@.len() - j,
        {
            if same_text(names[j].as_str(), name.as_str()) {
                assert(views(names@)[j as int] == names@[j as int]@);
                assert(all[j as int] == all[i as int]);
                assert(staged_name(manifest.artifacts@[j as int].artifact.path@) == name@);
                assert(staged_name(manifest.artifacts@[i as int].artifact.path@) == name@);
                return Err(Error::StagingCollision(name));
            }
            j = j + 1;
        }
        let ghost before = names@;
        names.push(name);
        i = i + 1;
        assert(views(names@) =~= all.subrange(0, i as int));
        assert(stageable(views(names@))) by {
            assert forall|a: int, b: int| 0 <= a < views(names@).len() && 0 <= b < views(names@).len() && a != b implies views(names@)[a] != views(names@)[b] by {
                if a < before.len() && b < before.len() {
                    assert(views(before)[a] != views(before)[b]);
                } else if a == before.len() {
                    assert(before[b]@ != names@[a]@);
                } else {
                    assert(before[a]@ != names@[b]@);
                }
            }
        }
    }
    assert(all.subrange(0, i as int) =~= all);
    Ok(names)
}

} // verus!
