//! What holds of the library as a whole: the laws that its operations keep.

use vstd::prelude::*;

use crate::contract::{
    coordinate_display, coordinate_name, delivery_admits, delivery_for, Contract, Coordinate, DisplayBackend, Law,
    Platform, Profile, Proof, Setup, proof_names,
};
use crate::plan::{expansion, nodes_expand, placements, planned_ids, Node};
use crate::receipt::{node_id_of, placement_name};
use crate::receipt::{same_inventory, Receipt, RECEIPT_SCHEMA};
use crate::support::{fits_job, judged, placed, Evidence};
use crate::text::is_slug;
use crate::digest::Artifact;
use crate::manifest::{declared_path, dependency_declarations, TomlValue};

verus! {

/// Distinct coordinates have distinct names.
pub proof fn lemma_coordinate_names_distinct(a: Coordinate, b: Coordinate)
    requires
        coordinate_name(a) == coordinate_name(b),
    ensures
        a == b,
{
    reveal_strlit("linux-x86_64-x11-vulkan");
    reveal_strlit("linux-x86_64-wayland-vulkan");
    reveal_strlit("macos-aarch64-metal");
    reveal_strlit("macos-x86_64-metal");
    reveal_strlit("windows-x86_64-dx12");
    reveal_strlit("linux-x86_64");
    reveal_strlit("macos-aarch64");
    reveal_strlit("macos-x86_64");
    reveal_strlit("windows-x86_64");
    let na = coordinate_name(a);
    let nb = coordinate_name(b);
    assert(na.len() == nb.len());
    assert(na[0] == nb[0]);
}

/// Two node identifiers built from slugs agree only where their proof names and
/// their placements agree.
proof fn lemma_node_id_parts(n1: Seq<char>, n2: Seq<char>, s1: Seq<char>, s2: Seq<char>)
    requires
        is_slug(n1),
        is_slug(n2),
        n1 + "--"@ + s1 == n2 + "--"@ + s2,
    ensures
        n1 == n2,
        s1 == s2,
{
    reveal_strlit("--");
    let a = n1 + "--"@ + s1;
    let b = n2 + "--"@ + s2;
    assert(a == b);
    if n1.len() < n2.len() {
        let l = n1.len() as int;
        assert(a[l] == '-');
        assert(a[l + 1] == '-');
        assert(b[l] == n2[l]);
        if l + 1 < n2.len() {
            assert(b[l + 1] == n2[l + 1]);
            assert(!(n2[l] == '-' && n2[l + 1] == '-'));
        } else {
            assert(n2.last() == n2[l]);
        }
    } else if n2.len() < n1.len() {
        let l = n2.len() as int;
        assert(b[l] == '-');
        assert(b[l + 1] == '-');
        assert(a[l] == n1[l]);
        if l + 1 < n1.len() {
            assert(a[l + 1] == n1[l + 1]);
            assert(!(n1[l] == '-' && n1[l + 1] == '-'));
        } else {
            assert(n1.last() == n1[l]);
        }
    } else {
        assert(n1 =~= a.subrange(0, n1.len() as int));
        assert(n2 =~= b.subrange(0, n2.len() as int));
        assert(s1 =~= a.subrange(n1.len() as int + 2, a.len() as int));
        assert(s2 =~= b.subrange(n2.len() as int + 2, b.len() as int));
    }
}

/// Every job of the expansion belongs to one of the proofs.
proof fn lemma_expansion_sources(s: Seq<Proof>)
    ensures
        forall|k: int|
            0 <= k < expansion(s).len() ==> exists|j: int| 0 <= j < s.len() && (#[trigger] expansion(s)[k]).0 == s[j],
    decreases s.len(),
{
    if s.len() > 0 {
        lemma_expansion_sources(s.drop_last());
        let prior = expansion(s.drop_last());
        let p = s.last();
        let added = placements(p).map_values(|c: Option<Coordinate>| (p, c));
        assert(expansion(s) == prior + added);
        assert forall|k: int| 0 <= k < expansion(s).len() implies exists|j: int|
            0 <= j < s.len() && (#[trigger] expansion(s)[k]).0 == s[j] by {
            if k < prior.len() {
                let j = choose|j: int| 0 <= j < s.drop_last().len() && prior[k].0 == s.drop_last()[j];
                assert(expansion(s)[k] == prior[k]);
                assert(s[j] == s.drop_last()[j]);
            } else {
                assert(expansion(s)[k] == added[k - prior.len()]);
                assert(expansion(s)[k].0 == s[s.len() - 1]);
            }
        }
    }
}

/// The proofs of a contract that would plan without collisions: slug names, no
/// two alike, and no coordinate twice within a proof.
pub open spec fn plannable(proofs: Seq<Proof>) -> bool {
    &&& proof_names(proofs).no_duplicates()
    &&& forall|j: int|
        0 <= j < proofs.len() ==> is_slug((#[trigger] proofs[j]).name@) && proofs[j].coordinates@.no_duplicates()
}

proof fn lemma_planned_prefix_distinct(proofs: Seq<Proof>, i: int)
    requires
        plannable(proofs),
        0 <= i <= proofs.len(),
    ensures
        planned_ids(proofs.take(i)).no_duplicates(),
    decreases i,
{
    if i > 0 {
        lemma_planned_prefix_distinct(proofs, i - 1);
        let s = proofs.take(i);
        let prior_s = proofs.take(i - 1);
        assert(s.drop_last() =~= prior_s);
        let p = proofs[i - 1];
        assert(s.last() == p);
        let added = placements(p).map_values(|c: Option<Coordinate>| (p, c));
        assert(expansion(s) == expansion(prior_s) + added);
        let f = |e: (Proof, Option<Coordinate>)| node_id_of(e.0.name@, e.1);
        let left = planned_ids(prior_s);
        let right = added.map_values(f);
        assert(planned_ids(s) =~= left + right);
        lemma_expansion_sources(prior_s);
        let ids = planned_ids(s);
        assert forall|a: int, b: int| 0 <= a < ids.len() && 0 <= b < ids.len() && a != b implies ids[a] != ids[b] by {
            if a < left.len() && b < left.len() {
                assert(ids[a] == left[a] && ids[b] == left[b]);
            } else if a >= left.len() && b >= left.len() {
                let x = a - left.len();
                let y = b - left.len();
                assert(ids[a] == right[x] && ids[b] == right[y]);
                assert(placements(p).len() == added.len());
                if p.coordinates@.len() == 0 {
                    assert(placements(p).len() == 1);
                } else {
                    let cx = p.coordinates@[x];
                    let cy = p.coordinates@[y];
                    assert(added[x].1 == Some(cx));
                    assert(added[y].1 == Some(cy));
                    assert(is_slug(p.name@) && p.coordinates@.no_duplicates()) by {
                        assert(proofs[i - 1] == p);
                    }
                    if ids[a] == ids[b] {
                        lemma_node_id_parts(p.name@, p.name@, placement_name(Some(cx)), placement_name(Some(cy)));
                        lemma_coordinate_names_distinct(cx, cy);
                    }
                }
            } else {
                let (l, r) = if a < left.len() { (a, b) } else { (b, a) };
                let y = r - left.len();
                assert(ids[r] == right[y]);
                assert(ids[l] == left[l]);
                let e = expansion(prior_s)[l];
                let j = choose|j: int| 0 <= j < prior_s.len() && e.0 == prior_s[j];
                assert(prior_s[j] == proofs[j]);
                assert(proof_names(proofs)[j] == proofs[j].name@);
                assert(proof_names(proofs)[i - 1] == proofs[i - 1].name@);
                assert(proofs[j].name@ != p.name@);
                assert(is_slug(proofs[j].name@));
                assert(is_slug(p.name@)) by {
                    assert(proofs[i - 1] == p);
                }
                if ids[l] == ids[r] {
                    assert(ids[l] == node_id_of(e.0.name@, e.1));
                    assert(ids[r] == node_id_of(p.name@, added[y].1));
                    lemma_node_id_parts(e.0.name@, p.name@, placement_name(e.1), placement_name(added[y].1));
                }
            }
        }
    } else {
        assert(planned_ids(proofs.take(0)) =~= Seq::<Seq<char>>::empty());
    }
}

/// A valid contract always plans: no two of its plan nodes share an identifier,
/// so forging its plan never fails.
pub proof fn lemma_valid_contract_plans(c: Contract)
    requires
        c.valid(),
    ensures
        planned_ids(c.proofs@).no_duplicates(),
{
    assert(plannable(c.proofs@)) by {
        assert forall|j: int| 0 <= j < c.proofs@.len() implies is_slug((#[trigger] c.proofs@[j]).name@)
            && c.proofs@[j].coordinates@.no_duplicates() by {
            assert(c.proofs@[j].well_formed(c.carried()));
        }
    }
    lemma_planned_prefix_distinct(c.proofs@, c.proofs@.len() as int);
    assert(c.proofs@.take(c.proofs@.len() as int) =~= c.proofs@);
}

/// In a valid contract every baseline coordinate of the profile is exactly one of
/// release-tested, supported, or excluded.
pub proof fn lemma_baseline_partition(c: Contract, x: Coordinate)
    requires
        c.valid(),
        c.baseline().contains(x),
    ensures
        (c.release().contains(x) as int) + (c.supported().contains(x) as int) + (c.excluded().contains(x) as int) == 1,
{
    assert(c.carried().contains(x) || c.excluded().contains(x));
    if c.release().contains(x) {
        let i = choose|i: int| 0 <= i < c.release().len() && c.release()[i] == x;
        assert(c.carried()[i] == x);
    }
    if c.supported().contains(x) {
        let i = choose|i: int| 0 <= i < c.supported().len() && c.supported()[i] == x;
        assert(c.carried()[c.release().len() + i] == x);
    }
    if c.carried().contains(x) {
        let i = choose|i: int| 0 <= i < c.carried().len() && c.carried()[i] == x;
        if i < c.release().len() {
            assert(c.release()[i] == x);
        } else {
            assert(c.supported()[i - c.release().len()] == x);
        }
    }
}

/// In a valid contract every carried coordinate has a proof of the host law, and
/// every release-tested coordinate has a proof of each law its profile demands there.
pub proof fn lemma_carried_coordinates_proved(c: Contract, x: Coordinate, l: Law)
    requires
        c.valid(),
        c.carried().contains(x),
        l == Law::Host || (c.release().contains(x) && crate::contract::release_obligation(c.profile(), x, l)),
    ensures
        c.discharges_at(x, l),
{
    let i = choose|i: int| 0 <= i < c.carried().len() && c.carried()[i] == x;
    if i < c.release().len() {
        assert(c.release()[i] == x);
        assert(crate::contract::release_obligation(c.profile(), x, Law::Host));
    } else {
        assert(c.supported()[i - c.release().len()] == x);
        assert(c.supported().contains(x));
    }
}

/// In a valid contract of a shipped product every release-tested platform has a
/// delivery that can inhabit it.
pub proof fn lemma_release_platforms_delivered(c: Contract, p: Platform)
    requires
        c.valid(),
        c.profile() != Profile::RustLibrary,
        c.releases_on(p),
    ensures
        delivery_for(c.delivery, p) matches Some(d) && delivery_admits(d, p),
{
}


/// Judged evidence holds, for each planned node in plan order, a successful receipt
/// of the judged source that names that node, and every artifact it records is on disk.
pub proof fn lemma_judged_receipts_hold(
    c: Contract,
    source: Seq<char>,
    cells: Seq<String>,
    evidence: Seq<Evidence>,
    k: int,
)
    requires
        judged(c, source, cells, evidence),
        0 <= k < evidence.len(),
    ensures
        evidence[k].receipt.success,
        evidence[k].receipt.source@ == source,
        evidence[k].receipt.node@ == planned_ids(c.proofs@)[k],
        evidence[k].receipt.schema == RECEIPT_SCHEMA,
        match evidence[k].inventory {
            None => evidence[k].receipt.artifacts@.len() == 0,
            Some(v) => same_inventory(v@, evidence[k].receipt.artifacts@),
        },
{
    let jobs = expansion(c.proofs@);
    assert(fits_job(c, jobs[k], source, evidence[k]));
}

/// A valid native GUI contract proves native acceptance at every release-tested
/// coordinate that runs under X11.
pub proof fn lemma_x11_coordinates_prove_acceptance(c: Contract, x: Coordinate)
    requires
        c.valid(),
        c.profile() == Profile::NativeGui,
        c.release().contains(x),
        coordinate_display(x) == Some(DisplayBackend::X11),
    ensures
        c.discharges_at(x, Law::NativeAcceptance),
{
    assert(crate::contract::release_obligation(c.profile(), x, Law::NativeAcceptance));
}

/// A valid native GUI contract proves first presentation and lifecycle at every
/// release-tested coordinate.
pub proof fn lemma_gui_coordinates_prove_presence(c: Contract, x: Coordinate)
    requires
        c.valid(),
        c.profile() == Profile::NativeGui,
        c.release().contains(x),
    ensures
        c.discharges_at(x, Law::Host),
        c.discharges_at(x, Law::FirstPresent),
        c.discharges_at(x, Law::Lifecycle),
{
    assert(crate::contract::release_obligation(c.profile(), x, Law::Host));
    assert(crate::contract::release_obligation(c.profile(), x, Law::FirstPresent));
    assert(crate::contract::release_obligation(c.profile(), x, Law::Lifecycle));
}

/// A plan node at a GUI coordinate whose laws include first presentation, native
/// acceptance or lifecycle runs under that coordinate's display server.
pub proof fn lemma_display_laws_get_the_display(nodes: Seq<Node>, proofs: Seq<Proof>, k: int, c: Coordinate, l: Law)
    requires
        nodes_expand(nodes, proofs),
        0 <= k < nodes.len(),
        nodes[k].coordinate == Some(c),
        nodes[k].laws@.contains(l),
        l == Law::FirstPresent || l == Law::NativeAcceptance || l == Law::Lifecycle,
        coordinate_display(c) is Some,
    ensures
        coordinate_display(c) == Some(DisplayBackend::X11) ==> nodes[k].setup == Setup::X11,
        coordinate_display(c) == Some(DisplayBackend::Wayland) ==> nodes[k].setup == Setup::Wayland,
{
    let p = expansion(proofs)[k].0;
    assert(nodes[k].describes(p, expansion(proofs)[k].1));
    let i = choose|i: int| 0 <= i < p.laws@.len() && p.laws@[i] == l;
    assert(crate::contract::law_needs_display(p.laws@[i]));
    assert(p.needs_display());
}

/// Two inventories agree only when they hold the same number of artifacts and
/// each position records the same path, size and digest.
pub proof fn lemma_agreeing_inventories_match(a: Seq<Artifact>, b: Seq<Artifact>)
    requires
        same_inventory(a, b),
    ensures
        a.len() == b.len(),
        forall|i: int|
            0 <= i < a.len() ==> (#[trigger] a[i]).path@ == b[i].path@ && a[i].bytes == b[i].bytes && a[i].sha256@
                == b[i].sha256@,
{
    assert forall|i: int| 0 <= i < a.len() implies (#[trigger] a[i]).path@ == b[i].path@ && a[i].bytes == b[i].bytes
        && a[i].sha256@ == b[i].sha256@ by {
        assert(crate::receipt::same_artifact(a[i], b[i]));
    }
}

/// Inventories that hold the same artifacts, position by position, agree.
pub proof fn lemma_matching_inventories_agree(a: Seq<Artifact>, b: Seq<Artifact>)
    requires
        a.len() == b.len(),
        forall|i: int|
            0 <= i < a.len() ==> (#[trigger] a[i]).path@ == b[i].path@ && a[i].bytes == b[i].bytes && a[i].sha256@
                == b[i].sha256@,
    ensures
        same_inventory(a, b),
{
}

/// The receipts reported at a placement are exactly the receipts at that placement,
/// in order: none dropped, none added.
pub proof fn lemma_placed_keeps_every_receipt(rs: Seq<Receipt>, p: Option<Coordinate>)
    ensures
        placed(rs, p) == rs.filter(|r: Receipt| r.coordinate == p),
        forall|i: int| 0 <= i < rs.len() && (#[trigger] rs[i]).coordinate == p ==> placed(rs, p).contains(rs[i]),
        forall|i: int| 0 <= i < placed(rs, p).len() ==> (#[trigger] placed(rs, p)[i]).coordinate == p,
    decreases rs.len(),
{
    reveal_with_fuel(Seq::filter, 2);
    if rs.len() > 0 {
        lemma_placed_keeps_every_receipt(rs.drop_last(), p);
        let front = placed(rs.drop_last(), p);
        assert forall|i: int| 0 <= i < rs.len() && (#[trigger] rs[i]).coordinate == p implies placed(rs, p).contains(rs[i]) by {
            if i < rs.len() - 1 {
                assert(rs.drop_last()[i] == rs[i]);
                let j = choose|j: int| 0 <= j < front.len() && front[j] == rs[i];
                assert(placed(rs, p)[j] == rs[i]);
            } else {
                assert(placed(rs, p)[front.len() as int] == rs[i]);
            }
        }
        assert forall|i: int| 0 <= i < placed(rs, p).len() implies (#[trigger] placed(rs, p)[i]).coordinate == p by {
            if i < front.len() {
                assert(placed(rs, p)[i] == front[i]);
            }
        }
        if rs.last().coordinate == p {
            assert(placed(rs, p) =~= rs.drop_last().filter(|r: Receipt| r.coordinate == p).push(rs.last()));
        } else {
            assert(placed(rs, p) =~= rs.drop_last().filter(|r: Receipt| r.coordinate == p));
        }
    } else {
        assert(placed(rs, p) =~= rs.filter(|r: Receipt| r.coordinate == p));
    }
}

/// Every entry of a dependency table that declares a path is reported, whatever
/// else the table holds.
pub proof fn lemma_every_path_dependency_declared(label: Seq<char>, entries: Seq<(String, TomlValue)>, k: int, p: Seq<char>)
    requires
        0 <= k < entries.len(),
        declared_path(entries[k].1) == Some(p),
    ensures
        crate::manifest::entry_declarations(label, entries).contains((label, entries[k].0@, p)),
    decreases entries.len(),
{
    let d = crate::manifest::entry_declarations(label, entries);
    let front = crate::manifest::entry_declarations(label, entries.drop_last());
    if k == entries.len() - 1 {
        assert(d[front.len() as int] == (label, entries[k].0@, p));
    } else {
        assert(entries.drop_last()[k] == entries[k]);
        lemma_every_path_dependency_declared(label, entries.drop_last(), k, p);
        let j = choose|j: int| 0 <= j < front.len() && front[j] == (label, entries[k].0@, p);
        assert(d[j] == front[j]);
    }
}

/// Every entry of a dependency table that declares a path is among the table's declarations.
pub proof fn lemma_dependency_table_declares_paths(label: Seq<char>, entries: Vec<(String, TomlValue)>, k: int, p: Seq<char>)
    requires
        0 <= k < entries@.len(),
        declared_path(entries@[k].1) == Some(p),
    ensures
        dependency_declarations(label, TomlValue::Table(entries)).contains((label, entries@[k].0@, p)),
{
    lemma_every_path_dependency_declared(label, entries@, k, p);
}

/// A valid CLI or platform-bound contract proves host behaviour and lifecycle at
/// every release-tested coordinate.
pub proof fn lemma_cli_coordinates_prove_lifecycle(c: Contract, x: Coordinate)
    requires
        c.valid(),
        c.profile() == Profile::PortableCli || c.profile() == Profile::PlatformBound,
        c.release().contains(x),
    ensures
        c.discharges_at(x, Law::Host),
        c.discharges_at(x, Law::Lifecycle),
{
    assert(crate::contract::release_obligation(c.profile(), x, Law::Host));
    assert(crate::contract::release_obligation(c.profile(), x, Law::Lifecycle));
}

/// A valid contract has global proofs of the source and dependency security, and,
/// unless the product is platform-bound, of the publishable package.
pub proof fn lemma_global_laws_proved(c: Contract)
    requires
        c.valid(),
    ensures
        c.discharges_globally(Law::Source),
        c.discharges_globally(Law::Security),
        c.profile() != Profile::PlatformBound ==> c.discharges_globally(Law::SourcePackage),
{
    assert(crate::contract::global_obligation(c.profile(), Law::Source));
    assert(crate::contract::global_obligation(c.profile(), Law::Security));
    if c.profile() != Profile::PlatformBound {
        assert(crate::contract::global_obligation(c.profile(), Law::SourcePackage));
    }
}

} // verus!
