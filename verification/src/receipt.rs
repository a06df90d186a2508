//! Proof receipts: what one executed proof seals about itself.

use vstd::prelude::*;

use crate::contract::{coordinate_arch, coordinate_name, coordinate_os, copy_laws, Contract, Coordinate, Law, Proof};
use crate::digest::Artifact;
use crate::error::Error;
use crate::plan::{Node, Plan};
use crate::support::first_named;
use crate::text::{chars_of, join, join_with, trim, trimmed, views};

verus! {

/// The suffix that names where a node runs: its coordinate, or `global`.
pub open spec fn placement_name(coordinate: Option<Coordinate>) -> Seq<char> {
    match coordinate {
        Some(c) => coordinate_name(c),
        None => "global"@,
    }
}

/// The identifier of the plan node that runs `proof` at `coordinate`.
pub open spec fn node_id_of(proof: Seq<char>, coordinate: Option<Coordinate>) -> Seq<char> {
    proof + "--"@ + placement_name(coordinate)
}

/// The name of a placement as an owned string.
pub fn placement(coordinate: Option<Coordinate>) -> (r: String)
    ensures
        r@ == placement_name(coordinate),
{
    match coordinate {
        Some(c) => c.name().to_owned(),
        None => "global".to_owned(),
    }
}

/// The identifier of the plan node that runs `proof` at `coordinate`.
pub fn node_id(proof: &str, coordinate: Option<Coordinate>) -> (r: String)
    ensures
        r@ == node_id_of(proof@, coordinate),
{
    let mut id = proof.to_owned();
    id.append("--");
    let suffix = placement(coordinate);
    id.append(suffix.as_str());
    id
}


/// The only receipt schema this library reads and writes.
pub const RECEIPT_SCHEMA: u32 = 2;

/// The host that executed a proof.
#[derive(Clone, Debug)]
pub struct HostWitness {
    pub os: String,
    pub arch: String,
}

/// What one executed proof seals about itself.
#[derive(Clone, Debug)]
pub struct Receipt {
    pub schema: u32,
    pub node: String,
    pub proof: String,
    pub coordinate: Option<Coordinate>,
    pub host: HostWitness,
    pub laws: Vec<Law>,
    pub source: String,
    pub command: Vec<String>,
    pub begun_unix_seconds: u64,
    pub elapsed_milliseconds: u128,
    pub success: bool,
    pub exit_code: Option<i32>,
    pub run_url: Option<String>,
    pub artifacts: Vec<Artifact>,
}

/// Two inventory entries agree in path, length and digest.
pub open spec fn same_artifact(a: Artifact, b: Artifact) -> bool {
    a.path@ == b.path@ && a.bytes == b.bytes && a.sha256@ == b.sha256@
}

/// Two inventories agree entry by entry.
pub open spec fn same_inventory(a: Seq<Artifact>, b: Seq<Artifact>) -> bool {
    a.len() == b.len() && forall|i: int| 0 <= i < a.len() ==> same_artifact(#[trigger] a[i], b[i])
}

fn artifacts_agree(a: &Artifact, b: &Artifact) -> (r: bool)
    ensures
        r == same_artifact(*a, *b),
{
    a.bytes == b.bytes && crate::text::same_text(a.path.as_str(), b.path.as_str())
        && crate::text::same_text(a.sha256.as_str(), b.sha256.as_str())
}

/// Whether two inventories agree entry by entry.
pub fn inventories_agree(a: &Vec<Artifact>, b: &Vec<Artifact>) -> (r: bool)
    ensures
        r == same_inventory(a@, b@),
{
    if a.len() != b.len() {
        return false;
    }
    let mut i: usize = 0;
    while i < a.len()
        invariant
            a@.len() == b@.len(),
            i <= a@.len(),
            forall|k: int| 0 <= k < i ==> same_artifact(#[trigger] a@[k], b@[k]),
        decreases a@.len() - i,
    {
        if !artifacts_agree(&a[i], &b[i]) {
            return false;
        }
        i = i + 1;
    }
    true
}

fn copy_strings(v: &Vec<String>) -> (r: Vec<String>)
    ensures
        r@ == v@,
{
    let mut out: Vec<String> = Vec::new();
    let mut i: usize = 0;
    while i < v.len()
        invariant
            i <= v@.len(),
            out@ == v@.subrange(0, i as int),
        decreases v@.len() - i,
    {
        out.push(v[i].clone());
        i = i + 1;
        assert(out@ =~= v@.subrange(0, i as int));
    }
    assert(out@ =~= v@);
    out
}

impl Receipt {
    /// Checks the recorded inventory against the artifact tree, given as its
    /// inventory, or `None` where the directory is absent. An absent directory is
    /// accepted for an empty inventory, since archivers may drop empty directories.
    pub fn validate_artifacts(&self, actual: Option<&Vec<Artifact>>) -> (r: Result<(), Error>)
        ensures
            match actual {
                None => {
                    &&& (r is Ok <==> self.artifacts@.len() == 0)
                    &&& (r matches Err(e) ==> e matches Error::AbsentArtifactDirectory(n) && n@ == self.node@)
                },
                Some(inventory) => {
                    &&& (r is Ok <==> same_inventory(inventory@, self.artifacts@))
                    &&& (r matches Err(e) ==> e matches Error::InventoryMismatch(n) && n@ == self.node@)
                },
            },
    {
        match actual {
            None => {
                if self.artifacts.len() == 0 {
                    Ok(())
                } else {
                    Err(Error::AbsentArtifactDirectory(self.node.clone()))
                }
            },
            Some(inventory) => {
                if inventories_agree(inventory, &self.artifacts) {
                    Ok(())
                } else {
                    Err(Error::InventoryMismatch(self.node.clone()))
                }
            },
        }
    }

    /// Seals the receipt of a proof executed for a plan node.
    pub fn seal(
        node: &Node,
        proof: &Proof,
        host: HostWitness,
        source: String,
        begun_unix_seconds: u64,
        elapsed_milliseconds: u128,
        success: bool,
        exit_code: Option<i32>,
        run_url: Option<String>,
        artifacts: Vec<Artifact>,
    ) -> (r: Receipt)
        ensures
            r.schema == RECEIPT_SCHEMA,
            r.node@ == node.id@,
            r.proof@ == proof.name@,
            r.coordinate == node.coordinate,
            r.host == host,
            r.laws@ == proof.laws@,
            r.source == source,
            r.command@ == proof.run@,
            r.begun_unix_seconds == begun_unix_seconds,
            r.elapsed_milliseconds == elapsed_milliseconds,
            r.success == success,
            r.exit_code == exit_code,
            r.run_url == run_url,
            r.artifacts == artifacts,
    {
        Receipt {
            schema: RECEIPT_SCHEMA,
            node: node.id.clone(),
            proof: proof.name.clone(),
            coordinate: node.coordinate,
            host,
            laws: copy_laws(&proof.laws),
            source,
            command: copy_strings(&proof.run),
            begun_unix_seconds,
            elapsed_milliseconds,
            success,
            exit_code,
            run_url,
            artifacts,
        }
    }
}

/// The plan has a node with the identifier.
pub open spec fn planned(plan: Plan, id: Seq<char>) -> bool {
    exists|i: int| 0 <= i < plan.nodes@.len() && (#[trigger] plan.nodes@[i]).id@ == id
}

/// The node at `i` is the first of the plan with the identifier.
pub open spec fn first_node(plan: Plan, id: Seq<char>, i: int) -> bool {
    &&& 0 <= i < plan.nodes@.len()
    &&& plan.nodes@[i].id@ == id
    &&& forall|j: int| 0 <= j < i ==> (#[trigger] plan.nodes@[j]).id@ != id
}

/// The contract has a proof with the name.
pub open spec fn proof_declared(contract: Contract, name: Seq<char>) -> bool {
    exists|i: int| first_named(contract.proofs@, name, i)
}

/// The first proof with the name has a nonempty command.
pub open spec fn command_present(contract: Contract, name: Seq<char>) -> bool {
    exists|i: int| first_named(contract.proofs@, name, i) && contract.proofs@[i].run@.len() > 0
}

/// A host with this operating system and architecture may run a proof at `coordinate`:
/// a global proof runs anywhere, a coordinate proof only on a host of that coordinate.
pub open spec fn host_admits(coordinate: Option<Coordinate>, os: Seq<char>, arch: Seq<char>) -> bool {
    coordinate matches Some(c) ==> coordinate_os(c) == os && coordinate_arch(c) == arch
}

/// Finds what an execution of `proof_name` at `coordinate` runs on a host with the
/// named operating system and architecture: its plan node and its proof. The checks
/// come in this order: the plan must hold the node, the contract the proof, the host
/// must inhabit the coordinate, and the proof must have a command. It succeeds
/// exactly when all four hold.
pub fn locate<'a>(
    contract: &'a Contract,
    plan: &'a Plan,
    proof_name: &str,
    coordinate: Option<Coordinate>,
    os: &str,
    arch: &str,
) -> (r: Result<(&'a Node, &'a Proof), Error>)
    ensures
        (planned(*plan, node_id_of(proof_name@, coordinate)) && proof_declared(*contract, proof_name@)
            && host_admits(coordinate, os@, arch@) && command_present(*contract, proof_name@)) <==> r is Ok,
        match r {
            Ok((node, proof)) => {
                &&& exists|i: int| first_node(*plan, node_id_of(proof_name@, coordinate), i) && plan.nodes@[i] == *node
                &&& exists|i: int| first_named(contract.proofs@, proof_name@, i) && contract.proofs@[i] == *proof
                &&& node.id@ == node_id_of(proof_name@, coordinate)
                &&& proof.name@ == proof_name@
                &&& proof.run@.len() > 0
                &&& host_admits(coordinate, os@, arch@)
            },
            Err(e) => match e {
                Error::UnplannedNode(id) => id@ == node_id_of(proof_name@, coordinate) && !planned(*plan, id@),
                Error::UnknownProof(n) => planned(*plan, node_id_of(proof_name@, coordinate)) && n@ == proof_name@
                    && !proof_declared(*contract, n@),
                Error::ForeignHost(c, o, a) => planned(*plan, node_id_of(proof_name@, coordinate))
                    && proof_declared(*contract, proof_name@) && coordinate == Some(c) && o@ == os@ && a@ == arch@
                    && !host_admits(coordinate, os@, arch@),
                Error::EmptyCommand(n) => planned(*plan, node_id_of(proof_name@, coordinate))
                    && proof_declared(*contract, proof_name@) && host_admits(coordinate, os@, arch@) && n@ == proof_name@
                    && !command_present(*contract, proof_name@),
                _ => false,
            },
        },
{
    let id = node_id(proof_name, coordinate);
    let node = match plan.node(id.as_str()) {
        Some(node) => node,
        None => {
            return Err(Error::UnplannedNode(id));
        },
    };
    let ghost ni = choose|i: int|
        0 <= i < plan.nodes@.len() && plan.nodes@[i] == *node && node.id@ == id@
            && forall|j: int| 0 <= j < i ==> (#[trigger] plan.nodes@[j]).id@ != id@;
    assert(first_node(*plan, id@, ni));
    assert(planned(*plan, id@));
    let proof = match contract.proof_named(proof_name) {
        Some(proof) => proof,
        None => {
            proof {
                assert forall|i: int| !first_named(contract.proofs@, proof_name@, i) by {
                    if 0 <= i < contract.proofs@.len() {
                        assert(contract.proofs@[i].name@ != proof_name@);
                    }
                }
            }
            return Err(Error::UnknownProof(proof_name.to_owned()));
        },
    };
    let ghost pi = choose|i: int|
        0 <= i < contract.proofs@.len() && contract.proofs@[i] == *proof && proof.name@ == proof_name@
            && forall|j: int| 0 <= j < i ==> (#[trigger] contract.proofs@[j]).name@ != proof_name@;
    assert(first_named(contract.proofs@, proof_name@, pi));
    assert(proof_declared(*contract, proof_name@));
    proof {
        assert forall|i: int| first_named(contract.proofs@, proof_name@, i) implies i == pi by {
            if i < pi {
                assert(contract.proofs@[i].name@ != proof_name@);
            } else if pi < i {
                assert(contract.proofs@[pi].name@ != proof_name@);
            }
        }
    }
    if let Some(c) = coordinate {
        if !c.inhabits(os, arch) {
            return Err(Error::ForeignHost(c, os.to_owned(), arch.to_owned()));
        }
    }
    if proof.run.len() == 0 {
        return Err(Error::EmptyCommand(proof_name.to_owned()));
    }
    assert(command_present(*contract, proof_name@));
    Ok((node, proof))
}

/// `s` with surrounding white space removed, unless nothing else remains.
pub fn trimmed_source(s: &str) -> (r: Option<String>)
    ensures
        match r {
            Some(v) => v@ == trimmed(s@) && v@.len() > 0,
            None => trimmed(s@).len() == 0,
        },
{
    let t = trim(s);
    if t.is_empty() {
        None
    } else {
        Some(t.to_owned())
    }
}

/// The source identity that the environment declares: `FOUNDRY_SOURCE`, else
/// `GITHUB_SHA`, each trimmed and only where something remains. `None` asks the
/// caller to consult version control.
pub fn source_from_environment(foundry_source: Option<&str>, github_sha: Option<&str>) -> (r: Option<String>)
    ensures
        match r {
            Some(v) => match foundry_source {
                Some(f) if trimmed(f@).len() > 0 => v@ == trimmed(f@),
                _ => github_sha matches Some(g) && trimmed(g@).len() > 0 && v@ == trimmed(g@),
            },
            None => (foundry_source matches Some(f) ==> trimmed(f@).len() == 0) && (github_sha matches Some(
                g,
            ) ==> trimmed(g@).len() == 0),
        },
{
    if let Some(f) = foundry_source {
        if let Some(v) = trimmed_source(f) {
            return Some(v);
        }
    }
    if let Some(g) = github_sha {
        if let Some(v) = trimmed_source(g) {
            return Some(v);
        }
    }
    None
}

/// The URL of the CI run, where the server, repository and run are all known.
pub fn github_run_url(server: Option<&str>, repository: Option<&str>, run: Option<&str>) -> (r: Option<String>)
    ensures
        match (server, repository, run) {
            (Some(s), Some(p), Some(n)) => r matches Some(u) && u@ == s@ + "/"@ + p@ + "/actions/runs/"@ + n@,
            _ => r is None,
        },
{
    match (server, repository, run) {
        (Some(s), Some(p), Some(n)) => {
            let mut url = s.to_owned();
            url.append("/");
            url.append(p);
            url.append("/actions/runs/");
            url.append(n);
            Some(url)
        },
        _ => None,
    }
}

/// The text that `{:?}` prints for a string.
pub uninterp spec fn debug_text(s: Seq<char>) -> Seq<char>;

/// `<str as Debug>::fmt` through `format!("{:?}")`: the string quoted and escaped
/// as Rust prints it. Which escapes it uses is left to the name `debug_text`.
#[verifier::external_body]
fn debug_quoted(value: &str) -> (r: String)
    ensures
        r@ == debug_text(value@),
{
    format!("{value:?}")
}

/// A character that a shell reads literally.
pub open spec fn shell_plain(c: char) -> bool {
    ('a' <= c <= 'z') || ('A' <= c <= 'Z') || ('0' <= c <= '9') || c == '/' || c == '.' || c == '_'
        || c == '-' || c == ':' || c == '='
}

/// A command part as a shell user would read it.
pub open spec fn shellish_text(s: Seq<char>) -> Seq<char> {
    if forall|i: int| 0 <= i < s.len() ==> shell_plain(#[trigger] s[i]) {
        s
    } else {
        debug_text(s)
    }
}

/// A command part as a shell user would read it: as it is where every character
/// is plain, else quoted.
pub fn shellish(value: &str) -> (r: String)
    ensures
        r@ == shellish_text(value@),
{
    let chars = chars_of(value);
    let mut i: usize = 0;
    while i < chars.len()
        invariant
            chars@ == value@,
            i <= chars@.len(),
            forall|k: int| 0 <= k < i ==> shell_plain(#[trigger] chars@[k]),
        decreases chars@.len() - i,
    {
        let c = chars[i];
        if !(('a' <= c && c <= 'z') || ('A' <= c && c <= 'Z') || ('0' <= c && c <= '9') || c == '/' || c
            == '.' || c == '_' || c == '-' || c == ':' || c == '=') {
            return debug_quoted(value);
        }
        i = i + 1;
    }
    value.to_owned()
}

/// A command as a shell user would read it: its parts, each as `shellish` shows it,
/// separated by single spaces.
pub fn command_display(command: &Vec<String>) -> (r: String)
    ensures
        r@ == join_with(command@.map_values(|part: String| shellish_text(part@)), " "@),
{
    let ghost words = command@.map_values(|part: String| shellish_text(part@));
    let mut parts: Vec<String> = Vec::new();
    let mut i: usize = 0;
    while i < command.len()
        invariant
            words == command@.map_values(|part: String| shellish_text(part@)),
            i <= command@.len(),
            views(parts@) == words.subrange(0, i as int),
        decreases command@.len() - i,
    {
        let ghost before = parts@;
        parts.push(shellish(command[i].as_str()));
        assert(views(parts@) =~= views(before).push(words[i as int]));
        i = i + 1;
        assert(views(parts@) =~= words.subrange(0, i as int));
    }
    assert(words.subrange(0, command@.len() as int) =~= words);
    join(&parts, " ")
}

} // verus!
