//! The proof plan: the contract expanded into one node per proof and placement.

use vstd::prelude::*;

use crate::contract::{copy_laws, Contract, Coordinate, Law, Proof, Setup};
use crate::error::Error;
use crate::receipt::{node_id, node_id_of, placement, placement_name};
use crate::text::same_text;

verus! {

/// One job of the plan: a proof at one placement.
#[derive(Clone, Debug)]
pub struct Node {
    pub id: String,
    pub name: String,
    pub proof: String,
    pub coordinate: Option<Coordinate>,
    pub laws: Vec<Law>,
    pub runner: String,
    pub setup: Setup,
    pub target: Option<String>,
    pub timeout_minutes: u16,
}

/// The exact proof graph of a contract.
#[derive(Clone, Debug)]
pub struct Plan {
    pub schema: u32,
    pub product: String,
    pub nodes: Vec<Node>,
}

/// The plan's nodes as a CI job matrix.
#[derive(Debug)]
pub struct Matrix<'a> {
    pub entries: &'a [Node],
}

/// Where a proof runs: once globally when it names no coordinate, else once per coordinate.
pub open spec fn placements(p: Proof) -> Seq<Option<Coordinate>> {
    if p.coordinates@.len() == 0 {
        seq![None]
    } else {
        p.coordinates@.map_values(|c: Coordinate| Some(c))
    }
}

/// Every proof paired with each of its placements, in contract order.
pub open spec fn expansion(proofs: Seq<Proof>) -> Seq<(Proof, Option<Coordinate>)>
    decreases proofs.len(),
{
    if proofs.len() == 0 {
        seq![]
    } else {
        let p = proofs.last();
        expansion(proofs.drop_last()) + placements(p).map_values(
            |c: Option<Coordinate>| (p, c),
        )
    }
}

/// The display title of a node.
pub open spec fn node_title(proof: Seq<char>, coordinate: Option<Coordinate>) -> Seq<char> {
    proof + " · "@ + placement_name(coordinate)
}

pub open spec fn runner_of(coordinate: Option<Coordinate>) -> Seq<char> {
    match coordinate {
        Some(c) => match c {
            Coordinate::MacosAarch64Metal | Coordinate::MacosAarch64 => "macos-15"@,
            Coordinate::MacosX86_64Metal | Coordinate::MacosX86_64 => "macos-15-intel"@,
            Coordinate::WindowsX86_64Dx12 | Coordinate::WindowsX86_64 => "windows-2025"@,
            _ => "ubuntu-24.04"@,
        },
        None => "ubuntu-24.04"@,
    }
}

pub open spec fn target_of(c: Coordinate) -> Seq<char> {
    match c {
        Coordinate::LinuxX86_64X11Vulkan
        | Coordinate::LinuxX86_64WaylandVulkan
        | Coordinate::LinuxX86_64 => "x86_64-unknown-linux-gnu"@,
        Coordinate::MacosAarch64Metal | Coordinate::MacosAarch64 => "aarch64-apple-darwin"@,
        Coordinate::MacosX86_64Metal | Coordinate::MacosX86_64 => "x86_64-apple-darwin"@,
        Coordinate::WindowsX86_64Dx12 | Coordinate::WindowsX86_64 => "x86_64-pc-windows-msvc"@,
    }
}

impl Node {
    /// The node is the job of `p` at `coordinate`.
    pub open spec fn describes(self, p: Proof, coordinate: Option<Coordinate>) -> bool {
        &&& self.id@ == node_id_of(p.name@, coordinate)
        &&& self.name@ == node_title(p.name@, coordinate)
        &&& self.proof@ == p.name@
        &&& self.coordinate == coordinate
        &&& self.laws@ == p.laws@
        &&& self.runner@ == runner_of(coordinate)
        &&& self.setup == p.setup_at(coordinate)
        &&& match coordinate {
            Some(c) => self.target matches Some(t) && t@ == target_of(c),
            None => self.target is None,
        }
        &&& self.timeout_minutes == p.timeout_minutes
    }
}

/// The identifiers of the nodes.
pub open spec fn node_ids(nodes: Seq<Node>) -> Seq<Seq<char>> {
    nodes.map_values(|n: Node| n.id@)
}

/// The identifiers that the expansion of `proofs` yields.
pub open spec fn planned_ids(proofs: Seq<Proof>) -> Seq<Seq<char>> {
    expansion(proofs).map_values(|e: (Proof, Option<Coordinate>)| node_id_of(e.0.name@, e.1))
}

/// `nodes` are, one for one and in order, the jobs of the expansion of `proofs`.
pub open spec fn nodes_expand(nodes: Seq<Node>, proofs: Seq<Proof>) -> bool {
    &&& nodes.len() == expansion(proofs).len()
    &&& forall|k: int|
        0 <= k < nodes.len() ==> (#[trigger] nodes[k]).describes(expansion(proofs)[k].0, expansion(proofs)[k].1)
}

proof fn lemma_expansion_step(proofs: Seq<Proof>, i: int)
    requires
        0 <= i < proofs.len(),
    ensures
        expansion(proofs.take(i + 1)) == expansion(proofs.take(i)) + placements(proofs[i]).map_values(
            |c: Option<Coordinate>| (proofs[i], c),
        ),
{
    assert(proofs.take(i + 1).drop_last() =~= proofs.take(i));
    assert(proofs.take(i + 1).last() == proofs[i]);
}

/// The identifiers of nodes that expand the proofs are the planned identifiers.
pub proof fn lemma_node_ids_of_expansion(nodes: Seq<Node>, proofs: Seq<Proof>)
    requires
        nodes_expand(nodes, proofs),
    ensures
        node_ids(nodes) == planned_ids(proofs),
{
    assert forall|k: int| 0 <= k < nodes.len() implies node_ids(nodes)[k] == planned_ids(proofs)[k] by {
        assert(nodes[k].describes(expansion(proofs)[k].0, expansion(proofs)[k].1));
    }
    assert(node_ids(nodes) =~= planned_ids(proofs));
}

impl Node {
    /// The job of `proof` at `coordinate`.
    fn forge(proof: &Proof, coordinate: Option<Coordinate>) -> (r: Node)
        ensures
            r.describes(*proof, coordinate),
    {
        let target = match coordinate {
            Some(c) => Some(c.target_triple().to_owned()),
            None => None,
        };
        let mut name = proof.name.clone();
        name.append(" · ");
        let suffix = placement(coordinate);
        name.append(suffix.as_str());
        let runner = match coordinate {
            Some(c) => c.runner().to_owned(),
            None => "ubuntu-24.04".to_owned(),
        };
        Node {
            id: node_id(proof.name.as_str(), coordinate),
            name,
            proof: proof.name.clone(),
            coordinate,
            laws: copy_laws(&proof.laws),
            runner,
            setup: proof.setup(coordinate),
            target,
            timeout_minutes: proof.timeout_minutes,
        }
    }
}

fn duplicate_node_id(v: &Vec<Node>) -> (r: Option<String>)
    ensures
        match r {
            Some(n) => crate::contract::first_repeat(node_ids(v@), n@),
            None => node_ids(v@).no_duplicates(),
        },
{
    let ghost ids = node_ids(v@);
    let n = v.len();
    let mut j: usize = 0;
    while j < n
        invariant
            n == v@.len(),
            ids == node_ids(v@),
            j <= n,
            forall|a: int, b: int| 0 <= a < b < j ==> ids[a] != ids[b],
        decreases n - j,
    {
        let mut i: usize = 0;
        while i < j
            invariant
                n == v@.len(),
                ids == node_ids(v@),
                i <= j < n,
                forall|a: int| 0 <= a < i ==> ids[a] != ids[j as int],
                forall|a: int, b: int| 0 <= a < b < j ==> ids[a] != ids[b],
            decreases j - i,
        {
            if same_text(v[i].id.as_str(), v[j].id.as_str()) {
                assert(ids[i as int] == ids[j as int]);
                return Some(v[j].id.clone());
            }
            i = i + 1;
        }
        j = j + 1;
    }
    assert forall|a: int, b: int| 0 <= a < ids.len() && 0 <= b < ids.len() && a != b implies ids[a] != ids[b] by {
        if a > b {
            assert(ids[b] != ids[a]);
        }
    }
    None
}

impl Plan {
    /// Expands the contract into its proof graph: one node per proof and placement,
    /// in contract order. It is refused exactly when two nodes would share an identifier.
    pub fn forge(contract: &Contract) -> (r: Result<Plan, Error>)
        ensures
            r is Ok <==> planned_ids(contract.proofs@).no_duplicates(),
            r matches Ok(plan) ==> {
                &&& plan.schema == contract.schema
                &&& plan.product@ == contract.product.name@
                &&& nodes_expand(plan.nodes@, contract.proofs@)
            },
            r matches Err(e) ==> e matches Error::DuplicatePlanNode(id) && crate::contract::first_repeat(
                planned_ids(contract.proofs@),
                id@,
            ),
    {
        let ghost proofs = contract.proofs@;
        let mut nodes: Vec<Node> = Vec::new();
        let mut i: usize = 0;
        assert(proofs.take(0) =~= Seq::<Proof>::empty());
        while i < contract.proofs.len()
            invariant
                proofs == contract.proofs@,
                i <= proofs.len(),
                nodes_expand(nodes@, proofs.take(i as int)),
            decreases proofs.len() - i,
        {
            let proof = &contract.proofs[i];
            let ghost before = nodes@;
            let ghost added = placements(proofs[i as int]).map_values(
                |c: Option<Coordinate>| (proofs[i as int], c),
            );
            proof {
                lemma_expansion_step(proofs, i as int);
            }
            if proof.coordinates.len() == 0 {
                nodes.push(Node::forge(proof, None));
                assert(nodes_expand(nodes@, proofs.take(i + 1))) by {
                    assert forall|k: int| 0 <= k < nodes@.len() implies (#[trigger] nodes@[k]).describes(
                        expansion(proofs.take(i + 1))[k].0,
                        expansion(proofs.take(i + 1))[k].1,
                    ) by {
                        if k < before.len() {
                            assert(nodes@[k] == before[k]);
                        }
                    }
                }
            } else {
                let mut j: usize = 0;
                while j < proof.coordinates.len()
                    invariant
                        proofs == contract.proofs@,
                        i < proofs.len(),
                        *proof == proofs[i as int],
                        proof.coordinates@.len() > 0,
                        added == placements(proofs[i as int]).map_values(
                            |c: Option<Coordinate>| (proofs[i as int], c),
                        ),
                        expansion(proofs.take(i + 1)) == expansion(proofs.take(i as int)) + added,
                        nodes_expand(before, proofs.take(i as int)),
                        j <= proof.coordinates@.len(),
                        nodes@.len() == before.len() + j,
                        forall|k: int| 0 <= k < before.len() ==> nodes@[k] == before[k],
                        forall|k: int|
                            0 <= k < j ==> (#[trigger] nodes@[before.len() + k]).describes(
                                *proof,
                                Some(proof.coordinates@[k]),
                            ),
                    decreases proof.coordinates@.len() - j,
                {
                    nodes.push(Node::forge(proof, Some(proof.coordinates[j])));
                    j = j + 1;
                }
                assert(nodes_expand(nodes@, proofs.take(i + 1))) by {
                    assert forall|k: int| 0 <= k < nodes@.len() implies (#[trigger] nodes@[k]).describes(
                        expansion(proofs.take(i + 1))[k].0,
                        expansion(proofs.take(i + 1))[k].1,
                    ) by {
                        if k < before.len() {
                            assert(nodes@[k] == before[k]);
                        } else {
                            assert(nodes@[before.len() + (k - before.len())].describes(
                                *proof,
                                Some(proof.coordinates@[k - before.len()]),
                            ));
                        }
                    }
                }
            }
            i = i + 1;
        }
        assert(proofs.take(proofs.len() as int) =~= proofs);
        proof {
            lemma_node_ids_of_expansion(nodes@, proofs);
        }
        match duplicate_node_id(&nodes) {
            Some(id) => Err(Error::DuplicatePlanNode(id)),
            None => Ok(Plan { schema: contract.schema, product: contract.product.name.clone(), nodes }),
        }
    }

    /// The first node with the identifier.
    pub fn node(&self, id: &str) -> (r: Option<&Node>)
        ensures
            match r {
                Some(n) => exists|i: int|
                    0 <= i < self.nodes@.len() && self.nodes@[i] == *n && n.id@ == id@
                        && forall|j: int| 0 <= j < i ==> (#[trigger] self.nodes@[j]).id@ != id@,
                None => forall|i: int| 0 <= i < self.nodes@.len() ==> (#[trigger] self.nodes@[i]).id@ != id@,
            },
    {
        let mut i: usize = 0;
        while i < self.nodes.len()
            invariant
                i <= self.nodes@.len(),
                forall|j: int| 0 <= j < i ==> (#[trigger] self.nodes@[j]).id@ != id@,
            decreases self.nodes@.len() - i,
        {
            if same_text(self.nodes[i].id.as_str(), id) {
                return Some(&self.nodes[i]);
            }
            i = i + 1;
        }
        None
    }

    /// The CI job matrix: every node, in plan order.
    pub fn github_matrix(&self) -> (r: Matrix<'_>)
        ensures
            r.entries@ == self.nodes@,
    {
        Matrix { entries: self.nodes.as_slice() }
    }
}

} // verus!
