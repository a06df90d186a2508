//! Content addressing of release artifacts: SHA-256 digests in lowercase hex,
//! and the sorted inventory of an artifact tree.

use vstd::prelude::*;

use sha2::{Digest, Sha256};

use crate::text::chars_of;

verus! {

/// The SHA-256 digest of `data`.
pub uninterp spec fn sha256_of(data: Seq<u8>) -> Seq<u8>;

/// `sha2::Sha256::digest`: the SHA-256 digest of the bytes, whose output size is
/// 32 bytes (`OutputSize = U32`). What the digest is beyond its length is left to
/// the name `sha256_of`.
#[verifier::external_body]
fn sha256(data: &[u8]) -> (r: Vec<u8>)
    ensures
        r@ == sha256_of(data@),
        r@.len() == 32,
{
    Sha256::digest(data).to_vec()
}

/// The lowercase hexadecimal digit of a value below sixteen.
pub open spec fn hex_digit(v: int) -> char {
    if v < 10 {
        ((v + 48) as u8) as char
    } else {
        ((v - 10 + 97) as u8) as char
    }
}

/// Two lowercase hexadecimal digits per byte, high nibble first.
pub open spec fn hex_lower(data: Seq<u8>) -> Seq<char>
    decreases data.len(),
{
    if data.len() == 0 {
        seq![]
    } else {
        hex_lower(data.drop_last()) + seq![hex_digit((data.last() / 16) as int), hex_digit((data.last() % 16) as int)]
    }
}

fn nibble_text(v: u8) -> (r: &'static str)
    requires
        v < 16,
    ensures
        r@ == seq![hex_digit(v as int)],
{
    proof {
        reveal_strlit("0");
        reveal_strlit("1");
        reveal_strlit("2");
        reveal_strlit("3");
        reveal_strlit("4");
        reveal_strlit("5");
        reveal_strlit("6");
        reveal_strlit("7");
        reveal_strlit("8");
        reveal_strlit("9");
        reveal_strlit("a");
        reveal_strlit("b");
        reveal_strlit("c");
        reveal_strlit("d");
        reveal_strlit("e");
        reveal_strlit("f");
    }
    match v {
        0 => "0",
        1 => "1",
        2 => "2",
        3 => "3",
        4 => "4",
        5 => "5",
        6 => "6",
        7 => "7",
        8 => "8",
        9 => "9",
        10 => "a",
        11 => "b",
        12 => "c",
        13 => "d",
        14 => "e",
        _ => "f",
    }
}

/// Lowercase hexadecimal text of the bytes.
pub fn to_hex_lower(data: &[u8]) -> (r: String)
    ensures
        r@ == hex_lower(data@),
{
    let mut out = "".to_owned();
    proof {
        reveal_strlit("");
    }
    let mut i: usize = 0;
    assert(out@ =~= hex_lower(data@.subrange(0, 0)));
    while i < data.len()
        invariant
            i <= data@.len(),
            out@ == hex_lower(data@.subrange(0, i as int)),
        decreases data@.len() - i,
    {
        let b = data[i];
        out.append(nibble_text(b / 16));
        out.append(nibble_text(b % 16));
        assert(data@.subrange(0, i + 1).drop_last() =~= data@.subrange(0, i as int));
        i = i + 1;
        assert(out@ =~= hex_lower(data@.subrange(0, i as int)));
    }
    assert(data@.subrange(0, data@.len() as int) =~= data@);
    out
}

/// The lowercase hexadecimal SHA-256 digest of the bytes.
pub fn sha256_hex(data: &[u8]) -> (r: String)
    ensures
        r@ == hex_lower(sha256_of(data@)),
{
    let digest = sha256(data);
    to_hex_lower(digest.as_slice())
}

/// Hexadecimal text holds two digits per byte.
pub proof fn lemma_hex_length(data: Seq<u8>)
    ensures
        hex_lower(data).len() == 2 * data.len(),
    decreases data.len(),
{
    if data.len() > 0 {
        lemma_hex_length(data.drop_last());
    }
}


// ---------------------------------------------------------------------------
// The order of artifact paths: component by component, each component by code point.

/// `a` sorts before `b`, comparing from position `i` on.
pub open spec fn text_lt_from(a: Seq<char>, b: Seq<char>, i: int) -> bool
    decreases a.len() - i,
{
    if i >= a.len() {
        i < b.len()
    } else if i >= b.len() {
        false
    } else if a[i] != b[i] {
        (a[i] as u32) < (b[i] as u32)
    } else {
        text_lt_from(a, b, i + 1)
    }
}

/// Lexicographic order of text by code point.
pub open spec fn text_lt(a: Seq<char>, b: Seq<char>) -> bool {
    text_lt_from(a, b, 0)
}

/// `a` sorts before `b`, comparing components from position `i` on.
pub open spec fn path_lt_from(a: Seq<Seq<char>>, b: Seq<Seq<char>>, i: int) -> bool
    decreases a.len() - i,
{
    if i >= a.len() {
        i < b.len()
    } else if i >= b.len() {
        false
    } else if a[i] != b[i] {
        text_lt(a[i], b[i])
    } else {
        path_lt_from(a, b, i + 1)
    }
}

/// Lexicographic order of paths by component, as paths are ordered.
pub open spec fn path_lt(a: Seq<Seq<char>>, b: Seq<Seq<char>>) -> bool {
    path_lt_from(a, b, 0)
}

proof fn lemma_text_lt_irreflexive(a: Seq<char>, i: int)
    requires
        0 <= i,
    ensures
        !text_lt_from(a, a, i),
    decreases a.len() - i,
{
    if i < a.len() {
        lemma_text_lt_irreflexive(a, i + 1);
    }
}

proof fn lemma_text_lt_transitive(a: Seq<char>, b: Seq<char>, c: Seq<char>, i: int)
    requires
        0 <= i,
        text_lt_from(a, b, i),
        text_lt_from(b, c, i),
    ensures
        text_lt_from(a, c, i),
    decreases a.len() - i,
{
    if i < a.len() && i < b.len() && i < c.len() && a[i] == b[i] && b[i] == c[i] {
        lemma_text_lt_transitive(a, b, c, i + 1);
    }
}

proof fn lemma_path_lt_irreflexive(a: Seq<Seq<char>>, i: int)
    requires
        0 <= i,
    ensures
        !path_lt_from(a, a, i),
    decreases a.len() - i,
{
    if i < a.len() {
        lemma_path_lt_irreflexive(a, i + 1);
    }
}

proof fn lemma_path_lt_transitive(a: Seq<Seq<char>>, b: Seq<Seq<char>>, c: Seq<Seq<char>>, i: int)
    requires
        0 <= i,
        path_lt_from(a, b, i),
        path_lt_from(b, c, i),
    ensures
        path_lt_from(a, c, i),
    decreases a.len() - i,
{
    if i < a.len() && i < b.len() && i < c.len() {
        if a[i] == b[i] && b[i] == c[i] {
            lemma_path_lt_transitive(a, b, c, i + 1);
        } else if a[i] != b[i] && b[i] != c[i] {
            lemma_text_lt_transitive(a[i], b[i], c[i], 0);
            if a[i] == c[i] {
                lemma_text_lt_transitive(a[i], b[i], a[i], 0);
                lemma_text_lt_irreflexive(a[i], 0);
            }
        }
    }
}

fn text_less(a: &Vec<char>, b: &Vec<char>) -> (r: bool)
    ensures
        r == text_lt(a@, b@),
{
    let mut i: usize = 0;
    while i < a.len() && i < b.len() && a[i] == b[i]
        invariant
            i <= a@.len(),
            i <= b@.len(),
            text_lt(a@, b@) == text_lt_from(a@, b@, i as int),
        decreases a@.len() - i,
    {
        i = i + 1;
    }
    if i >= a.len() {
        i < b.len()
    } else if i >= b.len() {
        false
    } else {
        (a[i] as u32) < (b[i] as u32)
    }
}

/// The components of a path, as text.
pub open spec fn component_view(components: Seq<String>) -> Seq<Seq<char>> {
    components.map_values(|s: String| s@)
}

fn path_less(a: &Vec<String>, b: &Vec<String>) -> (r: bool)
    ensures
        r == path_lt(component_view(a@), component_view(b@)),
{
    let ghost av = component_view(a@);
    let ghost bv = component_view(b@);
    let mut i: usize = 0;
    while i < a.len() && i < b.len() && crate::text::same_text(a[i].as_str(), b[i].as_str())
        invariant
            av == component_view(a@),
            bv == component_view(b@),
            i <= a@.len(),
            i <= b@.len(),
            path_lt(av, bv) == path_lt_from(av, bv, i as int),
        decreases a@.len() - i,
    {
        i = i + 1;
    }
    if i >= a.len() {
        i < b.len()
    } else if i >= b.len() {
        false
    } else {
        let x = chars_of(a[i].as_str());
        let y = chars_of(b[i].as_str());
        text_less(&x, &y)
    }
}

// ---------------------------------------------------------------------------
// The inventory of an artifact tree.

/// A regular file of an artifact tree: its path below the root, by component, and its bytes.
#[derive(Clone, Debug)]
pub struct ArtifactFile {
    pub components: Vec<String>,
    pub content: Vec<u8>,
}

/// One entry of an artifact inventory: a `/`-separated path below the root, the
/// file's length in bytes, and its lowercase hexadecimal SHA-256 digest.
#[derive(Clone, Debug)]
pub struct Artifact {
    pub path: String,
    pub bytes: u64,
    pub sha256: String,
}

/// The components joined by `/`.
pub open spec fn join_path(components: Seq<Seq<char>>) -> Seq<char>
    decreases components.len(),
{
    if components.len() == 0 {
        seq![]
    } else if components.len() == 1 {
        components[0]
    } else {
        join_path(components.drop_last()) + "/"@ + components.last()
    }
}

impl ArtifactFile {
    pub open spec fn path_view(self) -> Seq<Seq<char>> {
        component_view(self.components@)
    }
}

impl Artifact {
    /// The entry records the file.
    pub open spec fn records(self, f: ArtifactFile) -> bool {
        &&& self.path@ == join_path(f.path_view())
        &&& self.bytes == f.content@.len()
        &&& self.sha256@ == hex_lower(sha256_of(f.content@))
    }
}

/// The files are in path order.
pub open spec fn files_sorted(files: Seq<ArtifactFile>) -> bool {
    forall|i: int, j: int| 0 <= i < j < files.len() ==> !path_lt(files[j].path_view(), files[i].path_view())
}

fn join_components(components: &Vec<String>) -> (r: String)
    ensures
        r@ == join_path(component_view(components@)),
{
    let ghost cv = component_view(components@);
    let mut out = "".to_owned();
    proof {
        reveal_strlit("");
    }
    assert(out@ =~= join_path(cv.subrange(0, 0)));
    let mut i: usize = 0;
    while i < components.len()
        invariant
            cv == component_view(components@),
            i <= components@.len(),
            out@ == join_path(cv.subrange(0, i as int)),
        decreases components@.len() - i,
    {
        if i > 0 {
            out.append("/");
        }
        out.append(components[i].as_str());
        assert(cv.subrange(0, i + 1).drop_last() =~= cv.subrange(0, i as int));
        i = i + 1;
        assert(out@ =~= join_path(cv.subrange(0, i as int)));
    }
    assert(cv.subrange(0, components@.len() as int) =~= cv);
    out
}

/// The inventory entry of one file.
fn digest_file(file: &ArtifactFile) -> (r: Artifact)
    ensures
        r.records(*file),
{
    Artifact {
        path: join_components(&file.components),
        bytes: file.content.len() as u64,
        sha256: sha256_hex(file.content.as_slice()),
    }
}

/// The files in path order.
pub fn sort_files(files: Vec<ArtifactFile>) -> (r: Vec<ArtifactFile>)
    ensures
        r@.to_multiset() == files@.to_multiset(),
        files_sorted(r@),
{
    broadcast use vstd::seq_lib::group_to_multiset_ensures;
    broadcast use vstd::multiset::group_multiset_axioms;

    let ghost given = files@;
    let mut rest = files;
    let mut out: Vec<ArtifactFile> = Vec::new();
    while rest.len() > 0
        invariant
            out@.to_multiset().add(rest@.to_multiset()) == given.to_multiset(),
            files_sorted(out@),
            forall|a: int, b: int|
                0 <= a < out@.len() && 0 <= b < rest@.len() ==> !path_lt(
                    (#[trigger] rest@[b]).path_view(),
                    (#[trigger] out@[a]).path_view(),
                ),
        decreases rest@.len(),
    {
        let mut m: usize = 0;
        let mut k: usize = 1;
        proof {
            lemma_path_lt_irreflexive(rest@[0].path_view(), 0);
        }
        while k < rest.len()
            invariant
                0 < rest@.len(),
                m < k <= rest@.len(),
                forall|b: int| 0 <= b < k ==> !path_lt((#[trigger] rest@[b]).path_view(), rest@[m as int].path_view()),
            decreases rest@.len() - k,
        {
            if path_less(&rest[k].components, &rest[m].components) {
                proof {
                    assert forall|b: int| 0 <= b < k implies !path_lt(
                        (#[trigger] rest@[b]).path_view(),
                        rest@[k as int].path_view(),
                    ) by {
                        if path_lt(rest@[b].path_view(), rest@[k as int].path_view()) {
                            lemma_path_lt_transitive(
                                rest@[b].path_view(),
                                rest@[k as int].path_view(),
                                rest@[m as int].path_view(),
                                0,
                            );
                        }
                    }
                    lemma_path_lt_irreflexive(rest@[k as int].path_view(), 0);
                }
                m = k;
            }
            k = k + 1;
        }
        let ghost old_rest = rest@;
        let ghost old_out = out@;
        let f = rest.remove(m);
        out.push(f);
        proof {
            assert(rest@ == old_rest.remove(m as int));
            vstd::seq_lib::to_multiset_remove(old_rest, m as int);
            vstd::seq_lib::to_multiset_build(old_out, f);
            assert(old_rest.contains(f)) by {
                assert(old_rest[m as int] == f);
            }
            vstd::seq_lib::to_multiset_contains(old_rest, f);
            assert(old_rest.to_multiset().count(f) > 0);
            assert(out@.to_multiset().add(rest@.to_multiset()) =~= given.to_multiset());
            assert forall|a: int, b: int|
                0 <= a < out@.len() && 0 <= b < rest@.len() implies !path_lt(
                (#[trigger] rest@[b]).path_view(),
                (#[trigger] out@[a]).path_view(),
            ) by {
                if b < m {
                    assert(rest@[b] == old_rest[b]);
                } else {
                    assert(rest@[b] == old_rest[b + 1]);
                }
                if a < old_out.len() {
                    assert(out@[a] == old_out[a]);
                }
            }
        }
    }
    proof {
        assert(rest@.to_multiset() =~= vstd::multiset::Multiset::empty());
        assert(out@.to_multiset().add(rest@.to_multiset()) =~= out@.to_multiset());
    }
    out
}


/// The inventory of an artifact tree: every file, in path order, with its `/`-joined
/// relative path, its length and its digest.
pub fn digest_tree(files: Vec<ArtifactFile>) -> (r: Vec<Artifact>)
    ensures
        exists|sorted: Seq<ArtifactFile>|
            {
                &&& sorted.to_multiset() == files@.to_multiset()
                &&& files_sorted(sorted)
                &&& r@.len() == sorted.len()
                &&& forall|i: int| 0 <= i < sorted.len() ==> (#[trigger] r@[i]).records(sorted[i])
            },
{
    let sorted = sort_files(files);
    let mut out: Vec<Artifact> = Vec::new();
    let mut i: usize = 0;
    while i < sorted.len()
        invariant
            i <= sorted@.len(),
            out@.len() == i,
            forall|k: int| 0 <= k < i ==> (#[trigger] out@[k]).records(sorted@[k]),
        decreases sorted@.len() - i,
    {
        out.push(digest_file(&sorted[i]));
        i = i + 1;
    }
    assert(out@.len() == sorted@.len());
    out
}

} // verus!
