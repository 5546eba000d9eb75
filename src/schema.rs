use vstd::prelude::*;
use fuel_abi_types::abi::program::{ProgramABI, TypeApplication, TypeDeclaration};

verus! {

#[verifier::external_type_specification]
#[verifier::external_body]
pub struct ExTypeApplication(TypeApplication);

#[verifier::external_type_specification]
#[verifier::external_body]
pub struct ExTypeDeclaration(TypeDeclaration);

/// A type declaration of an ABI document as plain values: its id, and every
/// type id it refers to (its components with their type arguments, and its
/// type parameters).
#[derive(Debug, Clone, PartialEq, Eq)]
pub struct TypeNode {
    pub type_id: usize,
    pub refs: Vec<usize>,
}

/// The type references of an ABI document: its declarations, and the type ids
/// that its functions, logged types and configurables use.
#[derive(Debug, Clone, PartialEq, Eq)]
pub struct TypeGraph {
    pub types: Vec<TypeNode>,
    pub uses: Vec<usize>,
}

/// Declarations as plain values.
pub open spec fn nodes_view(types: Seq<TypeNode>) -> Seq<(usize, Seq<usize>)> {
    types.map_values(|t: TypeNode| (t.type_id, t.refs@))
}

/// The type graph of the ABI document `json`, or `None` where the text is not
/// such a document.
pub uninterp spec fn type_graph_of(json: Seq<char>) -> Option<(Seq<(usize, Seq<usize>)>, Seq<usize>)>;

/// Relies on `serde_json::from_str` into `fuel_abi_types`'s `ProgramABI`: the
/// same parse `FullProgramABI::from_json_abi` starts with; the outcome depends
/// on the text alone.
#[verifier::external_body]
pub(crate) fn parse_type_graph(json: &str) -> (r: Result<TypeGraph, String>)
    ensures
        match type_graph_of(json@) {
            Some(g) => r is Ok && nodes_view(r->Ok_0.types@) == g.0 && r->Ok_0.uses@ == g.1,
            None => r is Err,
        },
{
    let abi: ProgramABI = serde_json::from_str(json).map_err(|e| e.to_string())?;
    let fns = abi.functions.iter().flat_map(|f| f.inputs.iter().chain([&f.output]));
    let logged = abi.logged_types.iter().flatten().map(|l| &l.application);
    let conf = abi.configurables.iter().flatten().map(|c| &c.application);
    let uses = fns.chain(logged).chain(conf).flat_map(application_ids).collect();
    Ok(TypeGraph { types: abi.types.iter().map(type_node).collect(), uses })
}

/// Converts a type application: its id, then those of its type arguments,
/// depth first.
#[verifier::external_body]
fn application_ids(a: &TypeApplication) -> Vec<usize> {
    let args = a.type_arguments.iter().flatten().flat_map(application_ids);
    std::iter::once(a.type_id).chain(args).collect()
}

/// Converts a type declaration: its id, the ids of its components, then its
/// type parameters.
#[verifier::external_body]
fn type_node(t: &TypeDeclaration) -> TypeNode {
    let comps = t.components.iter().flatten().flat_map(application_ids);
    let params = t.type_parameters.iter().flatten().copied();
    TypeNode { type_id: t.type_id, refs: comps.chain(params).collect() }
}

/// The index of the last declaration of `id`, which is the one a lookup by id
/// finds; `-1` where there is none.
pub open spec fn last_decl(types: Seq<(usize, Seq<usize>)>, id: usize) -> int
    decreases types.len(),
{
    if types.len() == 0 {
        -1
    } else if types.last().0 == id {
        types.len() - 1
    } else {
        last_decl(types.drop_last(), id)
    }
}

/// `id` is declared, and its last declaration is marked in `marked`.
pub open spec fn ref_ok(types: Seq<(usize, Seq<usize>)>, marked: Seq<bool>, id: usize) -> bool {
    last_decl(types, id) >= 0 && marked[last_decl(types, id)]
}

/// Each of the first `m` ids of `refs` is declared, with its last declaration
/// marked.
pub open spec fn refs_ok_upto(
    types: Seq<(usize, Seq<usize>)>,
    marked: Seq<bool>,
    refs: Seq<usize>,
    m: nat,
) -> bool
    decreases m,
{
    if m == 0 {
        true
    } else {
        refs_ok_upto(types, marked, refs, (m - 1) as nat) && ref_ok(types, marked, refs[m - 1])
    }
}

/// Which declarations expand within `k` nested lookups: at `0` those that
/// refer to nothing; at `k + 1` those whose references all find a
/// declaration that expands within `k`.
pub open spec fn level(types: Seq<(usize, Seq<usize>)>, k: nat) -> Seq<bool>
    decreases k,
{
    if k == 0 {
        Seq::new(types.len(), |i: int| types[i].1.len() == 0)
    } else {
        Seq::new(
            types.len(),
            |i: int| refs_ok_upto(types, level(types, (k - 1) as nat), types[i].1, types[i].1.len()),
        )
    }
}

/// Every reference in the document names a declared type, and expanding any
/// of them comes to an end: no type refers back to itself. A path of lookups
/// that ends visits each declaration at most once, so as many rounds as there
/// are declarations settle every declaration that expands at all.
pub open spec fn graph_sound(g: (Seq<(usize, Seq<usize>)>, Seq<usize>)) -> bool {
    &&& forall|i: int| 0 <= i < g.0.len() ==> #[trigger] level(g.0, g.0.len())[i]
    &&& refs_ok_upto(g.0, level(g.0, g.0.len()), g.1, g.1.len())
}

pub proof fn lemma_last_decl_range(types: Seq<(usize, Seq<usize>)>, id: usize)
    ensures
        -1 <= last_decl(types, id) < types.len(),
        last_decl(types, id) >= 0 ==> types[last_decl(types, id)].0 == id,
    decreases types.len(),
{
    if types.len() > 0 {
        lemma_last_decl_range(types.drop_last(), id);
    }
}

/// The index of the last declaration of `id`.
fn find_last(types: &Vec<TypeNode>, id: usize) -> (r: Option<usize>)
    ensures
        match r {
            Some(i) => i as int == last_decl(nodes_view(types@), id),
            None => last_decl(nodes_view(types@), id) == -1,
        },
{
    let ghost tv = nodes_view(types@);
    let mut i: usize = types.len();
    assert(tv.take(i as int) =~= tv);
    while i > 0
        invariant
            i <= types@.len(),
            tv == nodes_view(types@),
            last_decl(tv, id) == last_decl(tv.take(i as int), id),
        decreases i,
    {
        assert(tv.take(i as int).drop_last() =~= tv.take(i - 1));
        assert(tv.take(i as int).last() == tv[i - 1]);
        if types[i - 1].type_id == id {
            return Some(i - 1);
        }
        i = i - 1;
    }
    assert(tv.take(0) =~= Seq::<(usize, Seq<usize>)>::empty());
    None
}

/// Whether every id of `refs` is declared with its last declaration marked.
fn refs_ok(types: &Vec<TypeNode>, marked: &Vec<bool>, refs: &Vec<usize>) -> (r: bool)
    requires
        marked@.len() == types@.len(),
    ensures
        r == refs_ok_upto(nodes_view(types@), marked@, refs@, refs@.len()),
{
    let ghost tv = nodes_view(types@);
    let mut ok = true;
    let mut j: usize = 0;
    while j < refs.len()
        invariant
            j <= refs@.len(),
            tv == nodes_view(types@),
            tv.len() == types@.len(),
            marked@.len() == types@.len(),
            ok == refs_ok_upto(tv, marked@, refs@, j as nat),
        decreases refs@.len() - j,
    {
        proof {
            lemma_last_decl_range(tv, refs@[j as int]);
        }
        let found = match find_last(types, refs[j]) {
            None => false,
            Some(l) => marked[l],
        };
        ok = ok && found;
        j = j + 1;
    }
    ok
}

/// Whether the document's type references are sound: see `graph_sound`.
pub fn graph_is_sound(g: &TypeGraph) -> (r: bool)
    ensures
        r == graph_sound((nodes_view(g.types@), g.uses@)),
{
    let ghost tv = nodes_view(g.types@);
    let n = g.types.len();
    assert(tv.len() == n);
    let mut done: Vec<bool> = Vec::new();
    let mut i: usize = 0;
    while i < n
        invariant
            n == g.types@.len() == tv.len(),
            tv == nodes_view(g.types@),
            i <= n,
            done@ =~= level(tv, 0).take(i as int),
        decreases n - i,
    {
        done.push(g.types[i].refs.len() == 0);
        i = i + 1;
    }
    let mut k: usize = 0;
    while k < n
        invariant
            n == g.types@.len() == tv.len(),
            tv == nodes_view(g.types@),
            k <= n,
            done@ == level(tv, k as nat),
        decreases n - k,
    {
        let mut next: Vec<bool> = Vec::new();
        let mut i: usize = 0;
        while i < n
            invariant
                n == g.types@.len() == tv.len(),
                tv == nodes_view(g.types@),
                i <= n,
                done@ == level(tv, k as nat),
                next@ =~= level(tv, (k + 1) as nat).take(i as int),
            decreases n - i,
        {
            let ok = refs_ok(&g.types, &done, &g.types[i].refs);
            next.push(ok);
            i = i + 1;
        }
        assert(next@ =~= level(tv, (k + 1) as nat));
        done = next;
        k = k + 1;
    }
    let mut all = true;
    let mut i: usize = 0;
    while i < n
        invariant
            i <= n,
            n == g.types@.len() == tv.len(),
            tv == nodes_view(g.types@),
            done@ == level(tv, n as nat),
            all == (forall|l: int| 0 <= l < i ==> #[trigger] level(tv, tv.len())[l]),
        decreases n - i,
    {
        all = all && done[i];
        i = i + 1;
    }
    let uses_ok = refs_ok(&g.types, &done, &g.uses);
    all && uses_ok
}

} // verus!
