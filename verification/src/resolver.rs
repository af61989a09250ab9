//! The module resolver: discovers the transitive closure of imported
//! modules from an entry path.
//!
//! The algorithm keeps a work list of paths to visit and the list of modules
//! already resolved, seeded with the entry path. It repeatedly pops a path,
//! skips it when already resolved — which guards against diamond-shaped and
//! cyclic import graphs without looping — and otherwise records it and
//! pushes its imports. Traversal order is deterministic: a stack, with ties
//! broken by import declaration order within a module.
//!
//! Reading files and mapping import specifiers to absolute paths are outside
//! work; the caller drives that loop through `next_pending` and
//! `record_module`, or hands a complete module graph to `resolve_all`.
//! Scanning a module's source for its import specifiers goes through the
//! external parser, behind `parse_imports`.

use crate::text::str_eq;
use vstd::prelude::*;
use vstd::seq_lib::*;
use vstd::set_lib::lemma_len_subset;

verus! {

broadcast use vstd::std_specs::vec::group_vec_axioms, vstd::set::group_set_axioms;

/// A resolution failure, carrying the path concerned.
#[derive(Debug)]
pub enum ResolutionError {
    /// A module file could not be read.
    Io(String),
    /// A module's source did not parse.
    Parse(String),
    /// An import specifier could not be mapped to a file.
    UnresolvedImport(String),
}

/// The mathematical form of a module graph: each module's path with the
/// resolved paths it imports, in declaration order.
pub open spec fn graph_view(g: Seq<(String, Vec<String>)>) -> Seq<(Seq<char>, Seq<Seq<char>>)> {
    Seq::new(g.len(), |i: int| (g[i].0@, crate::parser::seq_str_view(g[i].1@)))
}

/// The paths of a graph's modules.
pub open spec fn keys_view(g: Seq<(Seq<char>, Seq<Seq<char>>)>) -> Seq<Seq<char>> {
    Seq::new(g.len(), |i: int| g[i].0)
}

/// The import list of the module at `p`, if the graph holds it.
pub open spec fn graph_lookup(g: Seq<(Seq<char>, Seq<Seq<char>>)>, p: Seq<char>) -> Option<
    Seq<Seq<char>>,
>
    decreases g.len(),
{
    if g.len() == 0 {
        None
    } else if g[0].0 == p {
        Some(g[0].1)
    } else {
        graph_lookup(g.drop_first(), p)
    }
}

proof fn lemma_graph_lookup_in_keys(g: Seq<(Seq<char>, Seq<Seq<char>>)>, p: Seq<char>)
    ensures
        graph_lookup(g, p) is Some ==> keys_view(g).to_set().contains(p),
    decreases g.len(),
{
    if g.len() > 0 && graph_lookup(g, p) is Some {
        if g[0].0 == p {
            assert(keys_view(g)[0] == p);
            assert(keys_view(g).contains(p));
        } else {
            lemma_graph_lookup_in_keys(g.drop_first(), p);
            if graph_lookup(g.drop_first(), p) is Some {
                let ks = keys_view(g.drop_first());
                let i = choose|i: int| 0 <= i < ks.len() && ks[i] == p;
                assert(keys_view(g)[i + 1] == p);
                assert(keys_view(g).contains(p));
            }
        }
    }
}

/// Whether the resolver state is sound against a graph: no module resolved
/// twice, and every resolved module is one of the graph's.
pub open spec fn resolve_wf(
    g: Seq<(Seq<char>, Seq<Seq<char>>)>,
    visited: Seq<Seq<char>>,
) -> bool {
    visited.no_duplicates() && visited.to_set().subset_of(keys_view(g).to_set())
}

/// The whole resolution, as a function of the graph: pops the top of the
/// work list, skips it when already resolved, and otherwise records it and
/// pushes its imports; the result is the set of resolved module paths in
/// traversal order, or the first path that is not a module of the graph.
pub open spec fn spec_resolve(
    g: Seq<(Seq<char>, Seq<Seq<char>>)>,
    visited: Seq<Seq<char>>,
    work: Seq<Seq<char>>,
) -> Result<Seq<Seq<char>>, Seq<char>>
    decreases g.len() - visited.len(), work.len()
        when resolve_wf(g, visited)
        via spec_resolve_dec
{
    if work.len() == 0 {
        Ok(visited)
    } else {
        let p = work.last();
        let rest = work.drop_last();
        if visited.contains(p) {
            spec_resolve(g, visited, rest)
        } else {
            match graph_lookup(g, p) {
                None => Err(p),
                Some(imports) => spec_resolve(g, visited.push(p), rest + imports),
            }
        }
    }
}

#[via_fn]
proof fn spec_resolve_dec(
    g: Seq<(Seq<char>, Seq<Seq<char>>)>,
    visited: Seq<Seq<char>>,
    work: Seq<Seq<char>>,
) {
    if work.len() > 0 {
        let p = work.last();
        if !visited.contains(p) && graph_lookup(g, p) is Some {
            lemma_visited_bound(g, visited, p);
        }
    }
}

/// Recording one more unresolved module keeps the state sound and strictly
/// shrinks the number of modules still unresolved.
proof fn lemma_visited_bound(
    g: Seq<(Seq<char>, Seq<Seq<char>>)>,
    visited: Seq<Seq<char>>,
    p: Seq<char>,
)
    requires
        resolve_wf(g, visited),
        !visited.contains(p),
        graph_lookup(g, p) is Some,
    ensures
        resolve_wf(g, visited.push(p)),
        visited.len() < g.len(),
{
    lemma_graph_lookup_in_keys(g, p);
    let v2 = visited.push(p);
    assert forall|i: int, j: int| 0 <= i < j < v2.len() implies v2[i] != v2[j] by {
        if j == v2.len() - 1 {
            assert(visited.contains(visited[i]));
        }
    }
    assert forall|x: Seq<char>| v2.to_set().contains(x) implies keys_view(g).to_set().contains(
        x,
    ) by {
        if x != p {
            assert(visited.contains(x));
            assert(visited.to_set().contains(x));
        }
    }
    v2.unique_seq_to_set();
    keys_view(g).lemma_cardinality_of_set();
    lemma_len_subset(v2.to_set(), keys_view(g).to_set());
}

/// Resolution visits each module at most once: the resulting order has no
/// duplicates.
pub proof fn lemma_resolve_no_duplicates(
    g: Seq<(Seq<char>, Seq<Seq<char>>)>,
    visited: Seq<Seq<char>>,
    work: Seq<Seq<char>>,
)
    requires
        resolve_wf(g, visited),
    ensures
        spec_resolve(g, visited, work) matches Ok(vs) ==> vs.no_duplicates(),
    decreases g.len() - visited.len(), work.len(),
{
    if work.len() > 0 {
        let p = work.last();
        let rest = work.drop_last();
        if visited.contains(p) {
            lemma_resolve_no_duplicates(g, visited, rest);
        } else {
            match graph_lookup(g, p) {
                None => {},
                Some(imports) => {
                    lemma_visited_bound(g, visited, p);
                    lemma_resolve_no_duplicates(g, visited.push(p), rest + imports);
                },
            }
        }
    }
}

/// A graph is closed when every import of every module is itself a module.
pub open spec fn graph_closed(g: Seq<(Seq<char>, Seq<Seq<char>>)>) -> bool {
    forall|i: int, j: int|
        0 <= i < g.len() && 0 <= j < g[i].1.len() ==> graph_lookup(g, #[trigger] g[i].1[j])
            is Some
}

/// On a closed graph — import cycles included — resolution always succeeds:
/// no path ever fails to resolve, and the traversal terminates.
pub proof fn lemma_resolve_closed_total(
    g: Seq<(Seq<char>, Seq<Seq<char>>)>,
    visited: Seq<Seq<char>>,
    work: Seq<Seq<char>>,
)
    requires
        resolve_wf(g, visited),
        graph_closed(g),
        forall|k: int| 0 <= k < work.len() ==> graph_lookup(g, #[trigger] work[k]) is Some,
    ensures
        spec_resolve(g, visited, work) is Ok,
    decreases g.len() - visited.len(), work.len(),
{
    if work.len() > 0 {
        let p = work.last();
        let rest = work.drop_last();
        assert(work[work.len() - 1] == p);
        if visited.contains(p) {
            lemma_resolve_closed_total(g, visited, rest);
        } else {
            let imports = graph_lookup(g, p)->Some_0;
            lemma_visited_bound(g, visited, p);
            assert forall|k: int| 0 <= k < (rest + imports).len() implies graph_lookup(
                g,
                #[trigger] (rest + imports)[k],
            ) is Some by {
                if k < rest.len() {
                    assert((rest + imports)[k] == work[k]);
                } else {
                    let i = choose|i: int|
                        0 <= i < g.len() && g[i].0 == p && graph_lookup(g, p) == Some::<
                            Seq<Seq<char>>,
                        >(g[i].1);
                    lemma_graph_lookup_is_entry(g, p);
                    let ii = choose|ii: int|
                        0 <= ii < g.len() && g[ii].0 == p && g[ii].1 == imports;
                    assert((rest + imports)[k] == g[ii].1[k - rest.len()]);
                }
            }
            lemma_resolve_closed_total(g, visited.push(p), rest + imports);
        }
    }
}

proof fn lemma_graph_lookup_is_entry(g: Seq<(Seq<char>, Seq<Seq<char>>)>, p: Seq<char>)
    ensures
        graph_lookup(g, p) matches Some(imports) ==> exists|ii: int|
            0 <= ii < g.len() && g[ii].0 == p && g[ii].1 == imports,
    decreases g.len(),
{
    if g.len() > 0 {
        if g[0].0 == p {
            assert(0 <= 0 < g.len() && g[0].0 == p && g[0].1 == graph_lookup(g, p)->Some_0);
        } else {
            lemma_graph_lookup_is_entry(g.drop_first(), p);
            if graph_lookup(g.drop_first(), p) is Some {
                let ii = choose|ii: int|
                    0 <= ii < g.drop_first().len() && g.drop_first()[ii].0 == p && g.drop_first(
                    )[ii].1 == graph_lookup(g.drop_first(), p)->Some_0;
                assert(g[ii + 1].0 == p);
            }
        }
    }
}

/// Resolution is deterministic: two runs over the same graph from the same
/// entry state resolve the same modules in the same order.
pub proof fn lemma_resolution_deterministic(
    r1: Result<Seq<Seq<char>>, Seq<char>>,
    r2: Result<Seq<Seq<char>>, Seq<char>>,
    g: Seq<(Seq<char>, Seq<Seq<char>>)>,
    entry: Seq<char>,
)
    requires
        r1 == spec_resolve(g, Seq::empty(), seq![entry]),
        r2 == spec_resolve(g, Seq::empty(), seq![entry]),
    ensures
        r1 == r2,
{
}

/// The mathematical form of a list of optional strings.
pub open spec fn opts_view(s: Seq<Option<String>>) -> Seq<Option<Seq<char>>> {
    Seq::new(
        s.len(),
        |i: int|
            match s[i] {
                Some(x) => Some(x@),
                None => None,
            },
    )
}

/// What the external parser finds in a module's source: one entry per
/// top-level statement, the import statements carrying their specifier;
/// nothing when the source has syntax errors.
pub uninterp spec fn scan_of(source: Seq<char>) -> Option<Seq<Option<Seq<char>>>>;

/// Relies on oxc_parser's `Parser::parse`: the parse is a function of the
/// source text alone; it reports syntax errors, and yields the program's
/// statements, of which the import declarations carry their specifier.
#[verifier::external_body]
fn scan_module_imports(source: &str) -> (r: Option<Vec<Option<String>>>)
    ensures
        r is Some <==> scan_of(source@) is Some,
        r matches Some(v) ==> scan_of(source@) == Some(opts_view(v@)),
{
    let allocator = oxc_allocator::Allocator::default();
    let ret = oxc_parser::Parser::new(&allocator, source, oxc_span::SourceType::ts()).parse();
    if ret.diagnostics.has_errors() {
        return None;
    }
    Some(
        ret.program.body.iter().map(
            |st| match st {
                oxc_ast::ast::Statement::ImportDeclaration(d) => Some(
                    d.source.value.as_str().to_string(),
                ),
                _ => None,
            },
        ).collect(),
    )
}

/// The import specifiers among a scan's statements, in order.
pub open spec fn filter_somes(m: Seq<Option<Seq<char>>>) -> Seq<Seq<char>>
    decreases m.len(),
{
    if m.len() == 0 {
        Seq::empty()
    } else {
        match m[0] {
            Some(x) => seq![x] + filter_somes(m.drop_first()),
            None => filter_somes(m.drop_first()),
        }
    }
}

/// The mathematical form of a path list.
pub open spec fn paths_view(s: Seq<String>) -> Seq<Seq<char>> {
    Seq::new(s.len(), |i: int| s[i]@)
}

/// Scans a module's source and returns its import specifiers in declaration
/// order, or nothing when the source has syntax errors.
#[verifier::loop_isolation(false)]
pub fn parse_imports(source: &str) -> (r: Option<Vec<String>>)
    ensures
        r is Some <==> scan_of(source@) is Some,
        r matches Some(v) ==> scan_of(source@) matches Some(m) && paths_view(v@)
            == filter_somes(m),
{
    match scan_module_imports(source) {
        None => None,
        Some(scanned) => {
            let ghost m = opts_view(scanned@);
            let mut out: Vec<String> = Vec::new();
            let n: usize = scanned.len();
            let mut i: usize = 0;
            proof {
                assert(m.subrange(0, n as int) =~= m);
                assert(paths_view(out@) =~= Seq::<Seq<char>>::empty());
            }
            while i < n
                invariant
                    i <= n,
                    n == scanned@.len(),
                    m == opts_view(scanned@),
                    filter_somes(m) == paths_view(out@) + filter_somes(
                        m.subrange(i as int, n as int),
                    ),
                decreases n - i,
            {
                let ghost sub = m.subrange(i as int, n as int);
                proof {
                    assert(sub[0] == m[i as int]);
                    assert(sub.drop_first() =~= m.subrange(i as int + 1, n as int));
                }
                let ghost outv = paths_view(out@);
                match &scanned[i] {
                    Some(spec_str) => {
                        out.push(spec_str.clone());
                        proof {
                            assert(paths_view(out@) =~= outv.push(spec_str@));
                            assert(outv + (seq![spec_str@] + filter_somes(sub.drop_first()))
                                =~= outv.push(spec_str@) + filter_somes(sub.drop_first()));
                        }
                    },
                    None => {},
                }
                i += 1;
            }
            proof {
                assert(m.subrange(n as int, n as int) =~= Seq::<Option<Seq<char>>>::empty());
                assert(paths_view(out@) + Seq::<Seq<char>>::empty() =~= paths_view(out@));
            }
            Some(out)
        },
    }
}

/// True when a path list holds the given path.
fn contains_path(v: &Vec<String>, p: &str) -> (r: bool)
    ensures
        r == paths_view(v@).contains(p@),
{
    let mut i: usize = 0;
    while i < v.len()
        invariant
            i <= v@.len(),
            forall|j: int| 0 <= j < i ==> paths_view(v@)[j] != p@,
        decreases v@.len() - i,
    {
        if str_eq(v[i].as_str(), p) {
            proof {
                assert(paths_view(v@)[i as int] == p@);
            }
            return true;
        }
        i += 1;
    }
    proof {
        assert forall|j: int| 0 <= j < v@.len() implies paths_view(v@)[j] != p@ by {}
    }
    false
}

/// Finds a module's import list in a graph given as data.
#[verifier::loop_isolation(false)]
fn lookup_graph<'a>(graph: &'a Vec<(String, Vec<String>)>, p: &str) -> (r: Option<
    &'a Vec<String>,
>)
    ensures
        ({
            let s = graph_lookup(graph_view(graph@), p@);
            match r {
                Some(v) => s == Some(crate::parser::seq_str_view(v@)),
                None => s is None,
            }
        }),
{
    let ghost gv = graph_view(graph@);
    let n: usize = graph.len();
    let mut i: usize = 0;
    proof {
        assert(gv.subrange(0, n as int) =~= gv);
    }
    while i < n
        invariant
            i <= n,
            n == graph@.len(),
            gv == graph_view(graph@),
            graph_lookup(gv, p@) == graph_lookup(gv.subrange(i as int, n as int), p@),
        decreases n - i,
    {
        let ghost sub = gv.subrange(i as int, n as int);
        proof {
            assert(sub[0] == gv[i as int]);
            assert(sub.drop_first() =~= gv.subrange(i as int + 1, n as int));
        }
        if str_eq(graph[i].0.as_str(), p) {
            return Some(&graph[i].1);
        }
        i += 1;
    }
    None
}

/// The work-list step a caller-driven resolution takes: pops entries until
/// one not yet resolved is found.
pub open spec fn spec_next_pending(
    visited: Seq<Seq<char>>,
    work: Seq<Seq<char>>,
) -> (Option<Seq<char>>, Seq<Seq<char>>)
    decreases work.len(),
{
    if work.len() == 0 {
        (None, work)
    } else {
        let p = work.last();
        let rest = work.drop_last();
        if visited.contains(p) {
            spec_next_pending(visited, rest)
        } else {
            (Some(p), rest)
        }
    }
}

/// The resolver state: the modules resolved so far, in traversal order, and
/// the paths still to visit.
#[derive(Debug)]
pub struct ModuleResolver {
    visited: Vec<String>,
    worklist: Vec<String>,
    entry_point: String,
}

impl ModuleResolver {
    /// The modules resolved so far, in traversal order.
    pub closed spec fn visited_v(&self) -> Seq<Seq<char>> {
        paths_view(self.visited@)
    }

    /// The paths still to visit.
    pub closed spec fn work_v(&self) -> Seq<Seq<char>> {
        paths_view(self.worklist@)
    }

    /// The entry path.
    pub closed spec fn entry_v(&self) -> Seq<char> {
        self.entry_point@
    }

    /// Creates a resolver seeded with the entry path.
    pub fn new(entry_point: String) -> (r: Self)
        ensures
            r.visited_v() == Seq::<Seq<char>>::empty(),
            r.work_v() == seq![entry_point@],
            r.entry_v() == entry_point@,
    {
        let mut worklist: Vec<String> = Vec::new();
        worklist.push(entry_point.clone());
        let r = ModuleResolver { visited: Vec::new(), worklist, entry_point };
        proof {
            assert(r.visited_v() =~= Seq::<Seq<char>>::empty());
            assert(r.work_v() =~= seq![r.entry_point@]);
        }
        r
    }

    /// Pops work-list entries until an unresolved path is found; that path
    /// is recorded as resolved and returned, for the caller to read and
    /// scan. Returns nothing when all discovered modules are resolved.
    pub fn next_pending(&mut self) -> (r: Option<String>)
        ensures
            ({
                let s = spec_next_pending(old(self).visited_v(), old(self).work_v());
                &&& final(self).work_v() == s.1
                &&& final(self).entry_v() == old(self).entry_v()
                &&& match r {
                    Some(p) => s.0 == Some(p@) && final(self).visited_v() == old(
                        self,
                    ).visited_v().push(p@),
                    None => s.0 is None && final(self).visited_v() == old(self).visited_v(),
                }
            }),
    {
        loop
            invariant
                self.visited@ == old(self).visited@,
                self.entry_point == old(self).entry_point,
                spec_next_pending(old(self).visited_v(), old(self).work_v())
                    == spec_next_pending(self.visited_v(), self.work_v()),
            ensures
                self.visited@ == old(self).visited@,
                self.entry_point == old(self).entry_point,
                ({
                    let s = spec_next_pending(old(self).visited_v(), old(self).work_v());
                    &&& (self.work_v() == s.1 || (s.0 is Some && self.work_v() == s.1.push(
                        s.0->0,
                    )))
                    &&& (match s.0 {
                        Some(p) => self.work_v() == s.1.push(p) && self.worklist@.len() > 0
                            && self.worklist@.last()@ == p && !self.visited_v().contains(p),
                        None => self.work_v() == s.1 && self.worklist@.len() == 0,
                    })
                }),
            decreases self.worklist@.len(),
        {
            let ghost wv = self.work_v();
            if self.worklist.len() == 0 {
                break ;
            }
            let top_visited = contains_path(
                &self.visited,
                self.worklist[self.worklist.len() - 1].as_str(),
            );
            proof {
                assert(wv.last() == self.worklist@.last()@);
            }
            if !top_visited {
                break ;
            }
            let _ = self.worklist.pop();
            proof {
                assert(self.work_v() =~= wv.drop_last());
            }
        }
        let ghost wv = self.work_v();
        match self.worklist.pop() {
            Some(p) => {
                proof {
                    assert(self.work_v() =~= wv.drop_last());
                }
                let ghost vv = self.visited_v();
                self.visited.push(p.clone());
                proof {
                    assert(self.visited_v() =~= vv.push(p@));
                }
                Some(p)
            },
            None => None,
        }
    }

    /// Records the resolved import paths of the module just scanned,
    /// pushing them in declaration order.
    #[verifier::loop_isolation(false)]
    pub fn record_module(&mut self, imports: &Vec<String>)
        ensures
            final(self).visited_v() == old(self).visited_v(),
            final(self).entry_v() == old(self).entry_v(),
            final(self).work_v() == old(self).work_v() + paths_view(imports@),
    {
        let n: usize = imports.len();
        let mut i: usize = 0;
        proof {
            assert(old(self).work_v() + paths_view(imports@).take(0) =~= old(self).work_v());
        }
        while i < n
            invariant
                i <= n,
                n == imports@.len(),
                self.visited@ == old(self).visited@,
                self.entry_point == old(self).entry_point,
                self.work_v() == old(self).work_v() + paths_view(imports@).take(i as int),
            decreases n - i,
        {
            let ghost wv = self.work_v();
            self.worklist.push(imports[i].clone());
            i += 1;
            proof {
                assert(self.work_v() =~= wv.push(imports@[i - 1]@));
                assert(wv.push(imports@[i - 1]@) =~= old(self).work_v() + paths_view(
                    imports@,
                ).take(i as int));
            }
        }
        proof {
            assert(paths_view(imports@).take(n as int) =~= paths_view(imports@));
        }
    }

    /// The resolved module paths, in traversal order.
    pub fn get_all_modules(&self) -> (r: &Vec<String>)
        ensures
            paths_view(r@) == self.visited_v(),
    {
        &self.visited
    }

    /// Resolves the whole graph, given as data: repeatedly pops a path,
    /// skips it when already resolved, and otherwise records it and pushes
    /// its imports. Fails with `Io` on the first path that is not a module
    /// of the graph.
    pub fn resolve_all(&mut self, graph: &Vec<(String, Vec<String>)>) -> (r: Result<
        (),
        ResolutionError,
    >)
        requires
            old(self).visited_v() == Seq::<Seq<char>>::empty(),
        ensures
            ({
                let s = spec_resolve(graph_view(graph@), Seq::empty(), old(self).work_v());
                match r {
                    Ok(_) => s matches Ok(vs) && final(self).visited_v() == vs,
                    Err(e) => s matches Err(p) && e matches ResolutionError::Io(q) && q@ == p,
                }
            }),
    {
        let ghost gv = graph_view(graph@);
        proof {
            assert(self.visited_v().to_set().subset_of(keys_view(gv).to_set()));
        }
        loop
            invariant
                gv == graph_view(graph@),
                resolve_wf(gv, self.visited_v()),
                spec_resolve(gv, Seq::empty(), old(self).work_v()) == spec_resolve(
                    gv,
                    self.visited_v(),
                    self.work_v(),
                ),
            ensures
                spec_resolve(gv, Seq::empty(), old(self).work_v()) == Ok::<_, Seq<char>>(
                    self.visited_v(),
                ),
            decreases gv.len() - self.visited_v().len(), self.work_v().len(),
        {
            let ghost wv = self.work_v();
            let ghost vv = self.visited_v();
            match self.worklist.pop() {
                None => {
                    break ;
                },
                Some(p) => {
                    proof {
                        assert(self.work_v() =~= wv.drop_last());
                        assert(wv.last() == p@);
                    }
                    if contains_path(&self.visited, p.as_str()) {
                    } else {
                        match lookup_graph(graph, p.as_str()) {
                            None => {
                                return Err(ResolutionError::Io(p));
                            },
                            Some(imports) => {
                                proof {
                                    lemma_visited_bound(gv, vv, p@);
                                }
                                self.visited.push(p);
                                proof {
                                    assert(self.visited_v() =~= vv.push(wv.last()));
                                }
                                self.record_module(imports);
                            },
                        }
                    }
                },
            }
        }
        Ok(())
    }
}

} // verus!
