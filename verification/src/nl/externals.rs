//! Imported functions: which ones a problem calls, and which libraries give
//! them.

use crate::nl::autodiff::{all_flattenable, cached_context, calls_resolved, ExternalResolver};
use crate::nl::expr::ExprNode;
use crate::nl::parser::{func_models, FuncModel, ImportedFunc, NlFileData};
use crate::nl::scan::{to_chars, to_string, trim, trimmed};
use crate::sorted::{increasing, insert, member};
use crate::text::{decimal, push_decimal};
use std::collections::HashMap;
use vstd::prelude::*;

verus! {

broadcast use vstd::std_specs::hash::group_hash_axioms;

/// The expression calls the imported function `id`.
pub open spec fn calls(e: ExprNode, id: usize) -> bool
    decreases e,
{
    match e {
        ExprNode::Const(_) => false,
        ExprNode::Var(_) => false,
        ExprNode::StringLiteral(_) => false,
        ExprNode::Binary(_, l, r) => calls(*l, id) || calls(*r, id),
        ExprNode::Unary(_, a) => calls(*a, id),
        ExprNode::Nary(_, args) => some_calls(args@, id),
        ExprNode::If(c, t, f) => calls(*c, id) || calls(*t, id) || calls(*f, id),
        ExprNode::Funcall { id: own, args } => own == id || some_calls(args@, id),
    }
}

/// One of the expressions calls the imported function `id`.
pub open spec fn some_calls(es: Seq<ExprNode>, id: usize) -> bool
    decreases es,
{
    es.len() > 0 && (some_calls(es.drop_last(), id) || calls(es.last(), id))
}

/// A part of the problem calls the imported function `id`. Of the objectives
/// only the first one counts.
pub open spec fn uses(data: NlFileData, id: usize) -> bool {
    ||| data.obj_exprs@.len() > 0 && (data.obj_exprs@[0].2 matches Some(e) && calls(e, id))
    ||| exists|i: int|
        0 <= i < data.con_exprs@.len() && (#[trigger] data.con_exprs@[i] matches Some(e) && calls(
            e,
            id,
        ))
    ||| exists|i: int|
        0 <= i < data.common_exprs@.len() && calls(#[trigger] data.common_exprs@[i], id)
}

/// Adds the functions that the expression calls to the list.
fn walk_collect_ids(expr: &ExprNode, ids: &mut Vec<usize>)
    requires
        increasing(old(ids)@),
    ensures
        increasing(final(ids)@),
        forall|id: usize| #[trigger]
            final(ids)@.contains(id) <==> old(ids)@.contains(id) || calls(*expr, id),
    decreases expr,
{
    match expr {
        ExprNode::Const(_) | ExprNode::Var(_) | ExprNode::StringLiteral(_) => {},
        ExprNode::Binary(_, l, r) => {
            walk_collect_ids(l, ids);
            walk_collect_ids(r, ids);
        },
        ExprNode::Unary(_, a) => {
            walk_collect_ids(a, ids);
        },
        ExprNode::Nary(_, args) => {
            walk_all(args, ids);
        },
        ExprNode::If(c, t, f) => {
            walk_collect_ids(c, ids);
            walk_collect_ids(t, ids);
            walk_collect_ids(f, ids);
        },
        ExprNode::Funcall { id, args } => {
            insert(ids, *id);
            walk_all(args, ids);
        },
    }
}

fn walk_all(args: &Vec<ExprNode>, ids: &mut Vec<usize>)
    requires
        increasing(old(ids)@),
    ensures
        increasing(final(ids)@),
        forall|id: usize| #[trigger]
            final(ids)@.contains(id) <==> old(ids)@.contains(id) || some_calls(args@, id),
    decreases args,
{
    let ghost before = ids@;
    assert(args@.take(0) =~= Seq::<ExprNode>::empty());
    for i in 0..args.len()
        invariant
            increasing(ids@),
            forall|id: usize| #[trigger]
                ids@.contains(id) <==> before.contains(id) || some_calls(
                    args@.take(i as int),
                    id,
                ),
    {
        proof {
            let more = args@.take(i + 1);
            assert(more.drop_last() =~= args@.take(i as int));
            assert(more.last() == args@[i as int]);
        }
        walk_collect_ids(&args[i], ids);
    }
    assert(args@.take(args@.len() as int) =~= args@);
}

/// The imported functions that the problem calls, in increasing order.
pub fn collect_funcall_ids(data: &NlFileData) -> (ids: Vec<usize>)
    ensures
        increasing(ids@),
        forall|id: usize| #[trigger] ids@.contains(id) <==> uses(*data, id),
{
    let mut ids: Vec<usize> = Vec::new();
    if data.obj_exprs.len() > 0 {
        match &data.obj_exprs[0].2 {
            Some(e) => {
                walk_collect_ids(e, &mut ids);
            },
            None => {},
        }
    }
    let ghost first = ids@;
    for i in 0..data.con_exprs.len()
        invariant
            increasing(ids@),
            forall|id: usize| #[trigger]
                ids@.contains(id) <==> first.contains(id) || exists|k: int|
                    0 <= k < i && (#[trigger] data.con_exprs@[k] matches Some(e) && calls(e, id)),
    {
        let ghost was = ids@;
        match &data.con_exprs[i] {
            Some(e) => {
                walk_collect_ids(e, &mut ids);
            },
            None => {},
        }
        proof {
            assert forall|id: usize| #[trigger]
                ids@.contains(id) <==> first.contains(id) || exists|k: int|
                    0 <= k < i + 1 && (#[trigger] data.con_exprs@[k] matches Some(e) && calls(
                        e,
                        id,
                    )) by {
                assert(was.contains(id) <==> first.contains(id) || exists|k: int|
                    0 <= k < i && (#[trigger] data.con_exprs@[k] matches Some(e) && calls(e, id)));
                if ids@.contains(id) && !was.contains(id) {
                    assert(data.con_exprs@[i as int] matches Some(e) && calls(e, id));
                }
            }
        }
    }
    let ghost second = ids@;
    for i in 0..data.common_exprs.len()
        invariant
            increasing(ids@),
            forall|id: usize| #[trigger]
                ids@.contains(id) <==> second.contains(id) || exists|k: int|
                    0 <= k < i && calls(#[trigger] data.common_exprs@[k], id),
    {
        let ghost was = ids@;
        walk_collect_ids(&data.common_exprs[i], &mut ids);
        proof {
            assert forall|id: usize| #[trigger]
                ids@.contains(id) <==> second.contains(id) || exists|k: int|
                    0 <= k < i + 1 && calls(#[trigger] data.common_exprs@[k], id) by {
                assert(was.contains(id) <==> second.contains(id) || exists|k: int|
                    0 <= k < i && calls(#[trigger] data.common_exprs@[k], id));
                if ids@.contains(id) && !was.contains(id) {
                    assert(calls(data.common_exprs@[i as int], id));
                }
            }
        }
    }
    proof {
        assert forall|id: usize| #[trigger] ids@.contains(id) <==> uses(*data, id) by {
            assert(second.contains(id) <==> first.contains(id) || exists|k: int|
                0 <= k < data.con_exprs@.len() && (#[trigger] data.con_exprs@[k] matches Some(e)
                    && calls(e, id)));
        }
    }
    ids
}

/// A resolver that knows every function that an expression calls resolves it.
pub proof fn lemma_known_calls(e: ExprNode, funcs: Map<usize, (usize, String)>)
    requires
        forall|id: usize| #[trigger] calls(e, id) ==> funcs.dom().contains(id),
    ensures
        calls_resolved(e, funcs),
    decreases e,
{
    match e {
        ExprNode::Binary(_, l, r) => {
            assert forall|id: usize| #[trigger] calls(*l, id) implies funcs.dom().contains(id) by {
                assert(calls(e, id));
            }
            assert forall|id: usize| #[trigger] calls(*r, id) implies funcs.dom().contains(id) by {
                assert(calls(e, id));
            }
            lemma_known_calls(*l, funcs);
            lemma_known_calls(*r, funcs);
        },
        ExprNode::Unary(_, a) => {
            assert forall|id: usize| #[trigger] calls(*a, id) implies funcs.dom().contains(id) by {
                assert(calls(e, id));
            }
            lemma_known_calls(*a, funcs);
        },
        ExprNode::Nary(_, args) => {
            assert forall|id: usize| #[trigger] some_calls(args@, id) implies funcs.dom().contains(
                id,
            ) by {
                assert(calls(e, id));
            }
            lemma_all_known_calls(args@, funcs);
        },
        ExprNode::If(c, t, f) => {
            assert forall|id: usize| #[trigger] calls(*c, id) implies funcs.dom().contains(id) by {
                assert(calls(e, id));
            }
            assert forall|id: usize| #[trigger] calls(*t, id) implies funcs.dom().contains(id) by {
                assert(calls(e, id));
            }
            assert forall|id: usize| #[trigger] calls(*f, id) implies funcs.dom().contains(id) by {
                assert(calls(e, id));
            }
            lemma_known_calls(*c, funcs);
            lemma_known_calls(*t, funcs);
            lemma_known_calls(*f, funcs);
        },
        ExprNode::Funcall { id: own, args } => {
            assert(calls(e, own));
            assert forall|id: usize| #[trigger] some_calls(args@, id) implies funcs.dom().contains(
                id,
            ) by {
                assert(calls(e, id));
            }
            lemma_all_known_calls(args@, funcs);
        },
        _ => {},
    }
}

proof fn lemma_all_known_calls(es: Seq<ExprNode>, funcs: Map<usize, (usize, String)>)
    requires
        forall|id: usize| #[trigger] some_calls(es, id) ==> funcs.dom().contains(id),
    ensures
        all_flattenable(es, cached_context(Seq::empty(), 0, funcs), 0),
    decreases es,
{
    if es.len() > 0 {
        assert forall|id: usize| #[trigger] some_calls(
            es.drop_last(),
            id,
        ) implies funcs.dom().contains(id) by {
            assert(some_calls(es, id));
        }
        assert forall|id: usize| #[trigger] calls(es.last(), id) implies funcs.dom().contains(
            id,
        ) by {
            assert(some_calls(es, id));
        }
        lemma_all_known_calls(es.drop_last(), funcs);
        lemma_known_calls(es.last(), funcs);
    }
}

/// The pieces between separators, a line end or a colon, among the first `i`
/// characters: those that are complete, and the last one.
pub open spec fn pieces_upto(s: Seq<char>, i: nat) -> (Seq<Seq<char>>, Seq<char>)
    decreases i,
{
    if i == 0 {
        (Seq::empty(), Seq::empty())
    } else {
        let (done, part) = pieces_upto(s, (i - 1) as nat);
        if s[i - 1] == '\n' || s[i - 1] == ':' {
            (with_path(done, part), Seq::empty())
        } else {
            (done, part.push(s[i - 1]))
        }
    }
}

/// The list with the trimmed piece, unless that is empty.
pub open spec fn with_path(list: Seq<Seq<char>>, piece: Seq<char>) -> Seq<Seq<char>> {
    if trimmed(piece).len() == 0 {
        list
    } else {
        list.push(trimmed(piece))
    }
}

/// The library paths in a list separated by line ends or colons.
pub open spec fn paths_of(s: Seq<char>) -> Seq<Seq<char>> {
    let (done, part) = pieces_upto(s, s.len());
    with_path(done, part)
}

/// The texts that a list of strings holds.
pub open spec fn string_texts(list: Seq<String>) -> Seq<Seq<char>> {
    Seq::new(list.len(), |i: int| list[i]@)
}

fn push_path(list: &mut Vec<String>, piece: &Vec<char>)
    ensures
        string_texts(final(list)@) == with_path(string_texts(old(list)@), piece@),
{
    let path: Vec<char> = trim(piece);
    if path.len() > 0 {
        let ghost before = list@;
        list.push(to_string(&path));
        assert(string_texts(list@) =~= string_texts(before).push(path@));
    }
}

/// The library paths in the value of the variable that lists them.
pub fn amplfunc_paths(value: &str) -> (paths: Vec<String>)
    ensures
        string_texts(paths@) == paths_of(value@),
{
    let s: Vec<char> = to_chars(value);
    let mut paths: Vec<String> = Vec::new();
    let mut part: Vec<char> = Vec::new();
    assert(string_texts(paths@) =~= Seq::empty());
    for i in 0..s.len()
        invariant
            (string_texts(paths@), part@) == pieces_upto(s@, i as nat),
    {
        if s[i] == '\n' || s[i] == ':' {
            push_path(&mut paths, &part);
            part = Vec::new();
        } else {
            part.push(s[i]);
        }
    }
    push_path(&mut paths, &part);
    paths
}

/// Place of the first declaration of `id` from `k` on.
pub open spec fn declared_from(funcs: Seq<FuncModel>, id: usize, k: nat) -> Option<int>
    decreases funcs.len() - k,
{
    if k >= funcs.len() {
        None
    } else if funcs[k as int].id == id {
        Some(k as int)
    } else {
        declared_from(funcs, id, k + 1)
    }
}

/// The first library from `k` on that registered the name.
pub open spec fn library_from(names: Seq<Seq<Seq<char>>>, name: Seq<char>, k: nat) -> Option<int>
    decreases names.len() - k,
{
    if k >= names.len() {
        None
    } else if names[k as int].contains(name) {
        Some(k as int)
    } else {
        library_from(names, name, k + 1)
    }
}

/// Name of the first declared function from `k` on that is used.
pub open spec fn first_used(funcs: Seq<FuncModel>, ids: Seq<usize>, k: nat) -> Seq<char>
    decreases funcs.len() - k,
{
    if k >= funcs.len() {
        "<unknown>"@
    } else if ids.contains(funcs[k as int].id) {
        funcs[k as int].name
    } else {
        first_used(funcs, ids, k + 1)
    }
}

/// The texts with a comma between them.
pub open spec fn joined(list: Seq<Seq<char>>, k: nat) -> Seq<char>
    decreases k,
{
    if k == 0 {
        Seq::empty()
    } else if k == 1 {
        list[0]
    } else {
        joined(list, (k - 1) as nat) + ", "@ + list[k - 1]
    }
}

pub open spec fn not_set(name: Seq<char>) -> Seq<char> {
    "problem uses external function '"@ + name
        + "' but AMPLFUNC is not set. Set AMPLFUNC to a newline- or colon-separated list of shared-library paths (e.g. the IDAES Helmholtz extension)."@
}

pub open spec fn not_declared(id: usize) -> Seq<char> {
    "problem references Funcall id="@ + decimal(id as nat) + " but no F-segment declares it"@
}

pub open spec fn not_registered(name: Seq<char>, id: usize, paths: Seq<Seq<char>>) -> Seq<char> {
    "external function '"@ + name + "' (F"@ + decimal(id as nat)
        + ") was not registered by any AMPLFUNC library; loaded: ["@ + joined(paths, paths.len())
        + "]"@
}

/// Library and name of the function `id`, or why there is none.
pub open spec fn resolution(
    id: usize,
    funcs: Seq<FuncModel>,
    paths: Seq<Seq<char>>,
    names: Seq<Seq<Seq<char>>>,
) -> Result<(int, Seq<char>), Seq<char>> {
    match declared_from(funcs, id, 0) {
        None => Err(not_declared(id)),
        Some(k) => match library_from(names, funcs[k].name, 0) {
            None => Err(not_registered(funcs[k].name, id, paths)),
            Some(lib) => Ok((lib, funcs[k].name)),
        },
    }
}

/// The first error among the first `k` of the functions.
pub open spec fn first_error(
    ids: Seq<usize>,
    funcs: Seq<FuncModel>,
    paths: Seq<Seq<char>>,
    names: Seq<Seq<Seq<char>>>,
    k: nat,
) -> Option<Seq<char>>
    decreases k,
{
    if k == 0 {
        None
    } else {
        match first_error(ids, funcs, paths, names, (k - 1) as nat) {
            Some(e) => Some(e),
            None => match resolution(ids[k - 1], funcs, paths, names) {
                Ok(_) => None,
                Err(e) => Some(e),
            },
        }
    }
}

/// Why the functions cannot be resolved, if so. With no function nothing is
/// needed.
pub open spec fn resolution_error(
    ids: Seq<usize>,
    funcs: Seq<FuncModel>,
    paths: Seq<Seq<char>>,
    names: Seq<Seq<Seq<char>>>,
) -> Option<Seq<char>> {
    if ids.len() == 0 {
        None
    } else if paths.len() == 0 {
        Some(not_set(first_used(funcs, ids, 0)))
    } else {
        first_error(ids, funcs, paths, names, ids.len())
    }
}

/// The resolver holds the functions of the list.
pub open spec fn resolves(
    r: ExternalResolver,
    ids: Seq<usize>,
    funcs: Seq<FuncModel>,
    paths: Seq<Seq<char>>,
    names: Seq<Seq<Seq<char>>>,
) -> bool {
    &&& forall|id: usize| #[trigger] r.funcs_by_id@.dom().contains(id) <==> ids.contains(id)
    &&& forall|id: usize| #[trigger]
        r.funcs_by_id@.dom().contains(id) ==> (resolution(id, funcs, paths, names) matches Ok(t)
            && r.funcs_by_id@[id].0 == t.0 && r.funcs_by_id@[id].1@ == t.1)
}

/// The names that each library registered.
pub open spec fn registered(names: Seq<Vec<String>>) -> Seq<Seq<Seq<char>>> {
    Seq::new(names.len(), |i: int| string_texts(names[i]@))
}

fn same_text(a: &String, b: &String) -> (same: bool)
    ensures
        same == (a@ == b@),
{
    let x: Vec<char> = to_chars(a.as_str());
    let y: Vec<char> = to_chars(b.as_str());
    if x.len() != y.len() {
        return false;
    }
    for i in 0..x.len()
        invariant
            x@ == a@,
            y@ == b@,
            x@.len() == y@.len(),
            forall|k: int| 0 <= k < i ==> x@[k] == y@[k],
    {
        if x[i] != y[i] {
            assert(a@[i as int] != b@[i as int]);
            return false;
        }
    }
    assert(a@ =~= b@);
    true
}

fn has_name(list: &Vec<String>, name: &String) -> (found: bool)
    ensures
        found == string_texts(list@).contains(name@),
{
    for i in 0..list.len()
        invariant
            forall|k: int| 0 <= k < i ==> (#[trigger] list@[k])@ != name@,
    {
        if same_text(&list[i], name) {
            assert(string_texts(list@)[i as int] == name@);
            return true;
        }
    }
    proof {
        if string_texts(list@).contains(name@) {
            let k = choose|k: int|
                0 <= k < string_texts(list@).len() && string_texts(list@)[k] == name@;
            assert(list@[k]@ == name@);
        }
    }
    false
}

fn find_library(names: &Vec<Vec<String>>, name: &String) -> (lib: Option<usize>)
    ensures
        (match lib {
            Some(i) => Some(i as int),
            None => None,
        }) == library_from(registered(names@), name@, 0),
        lib matches Some(i) ==> i < names@.len(),
{
    for i in 0..names.len()
        invariant
            library_from(registered(names@), name@, 0) == library_from(
                registered(names@),
                name@,
                i as nat,
            ),
    {
        if has_name(&names[i], name) {
            return Some(i);
        }
    }
    None
}

fn find_declared(funcs: &Vec<ImportedFunc>, id: usize) -> (at: Option<usize>)
    ensures
        (match at {
            Some(i) => Some(i as int),
            None => None,
        }) == declared_from(func_models(funcs@), id, 0),
        at matches Some(i) ==> i < funcs@.len(),
{
    for i in 0..funcs.len()
        invariant
            declared_from(func_models(funcs@), id, 0) == declared_from(
                func_models(funcs@),
                id,
                i as nat,
            ),
    {
        if funcs[i].id == id {
            return Some(i);
        }
    }
    None
}

fn find_first_used(funcs: &Vec<ImportedFunc>, ids: &Vec<usize>) -> (name: String)
    requires
        increasing(ids@),
    ensures
        name@ == first_used(func_models(funcs@), ids@, 0),
{
    for i in 0..funcs.len()
        invariant
            increasing(ids@),
            first_used(func_models(funcs@), ids@, 0) == first_used(
                func_models(funcs@),
                ids@,
                i as nat,
            ),
    {
        if member(ids, funcs[i].id) {
            return funcs[i].name.clone();
        }
    }
    String::from_str("<unknown>")
}

fn say_not_registered(name: &String, id: usize, paths: &Vec<String>) -> (m: String)
    ensures
        m@ == not_registered(name@, id, string_texts(paths@)),
{
    let ghost list = string_texts(paths@);
    let mut all: String = String::new();
    for k in 0..paths.len()
        invariant
            list == string_texts(paths@),
            all@ == joined(list, k as nat),
    {
        if k > 0 {
            all.append(", ");
        }
        all.append(paths[k].as_str());
        assert(k == 0 ==> all@ =~= list[0]);
    }
    let mut m: String = String::from_str("external function '");
    m.append(name.as_str());
    m.append("' (F");
    push_decimal(&mut m, id);
    m.append(") was not registered by any AMPLFUNC library; loaded: [");
    m.append(all.as_str());
    m.append("]");
    m
}

/// Finds the functions that a problem calls among those that the libraries at
/// `paths` registered; `names` holds the names of each library.
pub fn resolve_externals(data: &NlFileData, paths: &Vec<String>, names: &Vec<Vec<String>>) -> (r:
    Result<ExternalResolver, String>)
    ensures
        exists|ids: Seq<usize>| #[trigger]
            increasing(ids) && (forall|id: usize| #[trigger]
                ids.contains(id) <==> uses(*data, id)) && match r {
                Ok(resolver) => resolution_error(
                    ids,
                    func_models(data.imported_funcs@),
                    string_texts(paths@),
                    registered(names@),
                ) is None && resolves(
                    resolver,
                    ids,
                    func_models(data.imported_funcs@),
                    string_texts(paths@),
                    registered(names@),
                ),
                Err(e) => resolution_error(
                    ids,
                    func_models(data.imported_funcs@),
                    string_texts(paths@),
                    registered(names@),
                ) == Some(e@),
            },
        r matches Ok(resolver) ==> forall|id: usize| #[trigger]
            uses(*data, id) ==> resolver.funcs_by_id@.dom().contains(id),
{
    let ids: Vec<usize> = collect_funcall_ids(data);
    if ids.len() == 0 {
        let r: ExternalResolver = ExternalResolver::default();
        proof {
            assert forall|id: usize| #[trigger] uses(*data, id) implies false by {
                assert(ids@.contains(id));
            }
        }
        return Ok(r);
    }
    let ghost funcs = func_models(data.imported_funcs@);
    let ghost list = string_texts(paths@);
    let ghost libs = registered(names@);
    if paths.len() == 0 {
        let name: String = find_first_used(&data.imported_funcs, &ids);
        let mut m: String = String::from_str("problem uses external function '");
        m.append(name.as_str());
        m.append(
            "' but AMPLFUNC is not set. Set AMPLFUNC to a newline- or colon-separated list of shared-library paths (e.g. the IDAES Helmholtz extension).",
        );
        return Err(m);
    }
    let mut found: HashMap<usize, (usize, String)> = HashMap::new();
    for k in 0..ids.len()
        invariant
            increasing(ids@),
            forall|id: usize| #[trigger] ids@.contains(id) <==> uses(*data, id),
            ids@.len() > 0,
            paths@.len() > 0,
            funcs == func_models(data.imported_funcs@),
            list == string_texts(paths@),
            libs == registered(names@),
            first_error(ids@, funcs, list, libs, k as nat) is None,
            forall|id: usize| #[trigger]
                found@.dom().contains(id) <==> ids@.take(k as int).contains(id),
            forall|id: usize| #[trigger]
                found@.dom().contains(id) ==> (resolution(id, funcs, list, libs) matches Ok(t)
                    && found@[id].0 == t.0 && found@[id].1@ == t.1),
    {
        let id: usize = ids[k];
        let at: usize = match find_declared(&data.imported_funcs, id) {
            None => {
                let mut m: String = String::from_str("problem references Funcall id=");
                push_decimal(&mut m, id);
                m.append(" but no F-segment declares it");
                proof {
                    lemma_error_stays(ids@, funcs, list, libs, (k + 1) as nat, ids@.len());
                }
                return Err(m);
            },
            Some(i) => i,
        };
        let name: String = data.imported_funcs[at].name.clone();
        assert(funcs[at as int].name == name@);
        match find_library(names, &name) {
            None => {
                let m: String = say_not_registered(&name, id, paths);
                proof {
                    lemma_error_stays(ids@, funcs, list, libs, (k + 1) as nat, ids@.len());
                }
                return Err(m);
            },
            Some(lib) => {
                let ghost was = found@;
                found.insert(id, (lib, name));
                proof {
                    let a = ids@.take(k as int);
                    let b = ids@.take(k + 1);
                    assert(b =~= a.push(id));
                    assert forall|q: usize| #[trigger] found@.dom().contains(q) <==> b.contains(
                        q,
                    ) by {
                        assert(was.dom().contains(q) <==> a.contains(q));
                        if a.contains(q) {
                            let i = choose|i: int| 0 <= i < a.len() && a[i] == q;
                            assert(b[i] == q);
                        }
                        if b.contains(q) && q != id {
                            let i = choose|i: int| 0 <= i < b.len() && b[i] == q;
                            assert(a[i] == q);
                        }
                        assert(b[k as int] == id);
                    }
                }
            },
        }
    }
    proof {
        assert(ids@.take(ids@.len() as int) =~= ids@);
        assert forall|id: usize| #[trigger] uses(*data, id) implies found@.dom().contains(id) by {
            assert(ids@.contains(id));
        }
    }
    Ok(ExternalResolver { funcs_by_id: found })
}

proof fn lemma_error_stays(
    ids: Seq<usize>,
    funcs: Seq<FuncModel>,
    paths: Seq<Seq<char>>,
    names: Seq<Seq<Seq<char>>>,
    k: nat,
    n: nat,
)
    requires
        k <= n,
        first_error(ids, funcs, paths, names, k) is Some,
    ensures
        first_error(ids, funcs, paths, names, n) == first_error(ids, funcs, paths, names, k),
    decreases n,
{
    if k < n {
        lemma_error_stays(ids, funcs, paths, names, k, (n - 1) as nat);
    }
}

} // verus!
