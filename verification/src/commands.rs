//! The decisions the tool's commands make around their ffmpeg runs: input checks,
//! project scaffolding, which files to probe, and which schema to print.

use vstd::prelude::*;
use crate::names::{
    dotted_extension_is, has_extension, lemma_extension_characterized, has_extension_ignore_case, lemma_lex_antisymmetric, lemma_lex_total,
    lemma_lex_transitive, lex_le, lex_le_exec, name_views,
};
use crate::text::{push_str_item, replace_all, replace_all_str, str_eq, views};
use vstd::slice::slice_to_vec;

verus! {

broadcast use vstd::seq_lib::group_to_multiset_ensures;

/// Checks that at least two clips were given to assemble.
pub fn check_assemble_inputs(count: usize) -> (r: Result<(), &'static str>)
    ensures
        count >= 2 ==> r is Ok,
        count < 2 ==> (r matches Err(m) && m@ == "invalid input: provide at least two clips to assemble"@),
{
    if count >= 2 {
        Ok(())
    } else {
        Err("invalid input: provide at least two clips to assemble")
    }
}

/// Checks that at least two audio files were given to concatenate.
pub fn check_concat_inputs(count: usize) -> (r: Result<(), &'static str>)
    ensures
        count >= 2 ==> r is Ok,
        count < 2 ==> (r matches Err(m) && m@ == "invalid input: concat-audio needs at least two input files"@),
{
    if count >= 2 {
        Ok(())
    } else {
        Err("invalid input: concat-audio needs at least two input files")
    }
}

/// The subdirectories of a new project, in creation order.
pub fn project_subdirs() -> (r: Vec<String>)
    ensures
        views(r@) == seq!["clips"@, "audio"@, "renders"@, "frames"@],
{
    let mut v: Vec<String> = Vec::new();
    push_str_item(&mut v, "clips");
    push_str_item(&mut v, "audio");
    push_str_item(&mut v, "renders");
    push_str_item(&mut v, "frames");
    v
}

/// What `init` does with the project directory it is asked for.
#[derive(Clone, Copy, Debug, PartialEq, Eq, Structural)]
pub enum InitAction {
    /// The directory holds a project already: report it and change nothing.
    ReportExisting,
    /// The directory exists but holds no `project.yaml`: refuse.
    RefuseNotAProject,
    /// The directory does not exist: create the project.
    Create,
}

/// Decides what `init` does, from whether the project directory exists and whether
/// it holds a `project.yaml`.
pub fn init_action(dir_exists: bool, has_project_file: bool) -> (r: InitAction)
    ensures
        !dir_exists ==> r == InitAction::Create,
        dir_exists && has_project_file ==> r == InitAction::ReportExisting,
        dir_exists && !has_project_file ==> r == InitAction::RefuseNotAProject,
{
    if dir_exists {
        if has_project_file {
            InitAction::ReportExisting
        } else {
            InitAction::RefuseNotAProject
        }
    } else {
        InitAction::Create
    }
}

/// The message when `init` meets a directory that is not a project.
pub fn not_a_project_message(dir: &str) -> (r: String)
    ensures
        r@ == "Directory exists but is not a valid demovid project (no project.yaml): "@ + dir@,
{
    let mut m = String::new();
    m.append("Directory exists but is not a valid demovid project (no project.yaml): ");
    m.append(dir);
    m
}

/// The project file of a new project: the template with every `{{slug}}` replaced by
/// the project's slug.
pub fn project_yaml(template: &str, slug: &str) -> (r: String)
    ensures
        r@ == replace_all(template@, "{{slug}}"@, slug@),
{
    proof {
        reveal_strlit("{{slug}}");
    }
    replace_all_str(template, "{{slug}}", slug)
}

/// The commands that `schema` describes.
#[derive(Clone, Copy, Debug, PartialEq, Eq, Structural)]
pub enum SchemaCommand {
    Probe,
    ProbeAll,
    Frames,
    Init,
}

/// The message when `schema` is asked about a command it does not describe.
pub open spec fn unknown_schema_message(command: Seq<char>) -> Seq<char> {
    "Unknown command for schema: '"@ + command + "'. Valid: probe, probe-all, frames, init"@
}

/// Which command's schema `schema <command>` prints, or the error for an unknown one.
pub fn schema_command(command: &str) -> (r: Result<SchemaCommand, String>)
    ensures
        command@ == "probe"@ ==> r == Ok::<_, String>(SchemaCommand::Probe),
        command@ == "probe-all"@ ==> r == Ok::<_, String>(SchemaCommand::ProbeAll),
        command@ == "frames"@ ==> r == Ok::<_, String>(SchemaCommand::Frames),
        command@ == "init"@ ==> r == Ok::<_, String>(SchemaCommand::Init),
        command@ != "probe"@ && command@ != "probe-all"@ && command@ != "frames"@ && command@ != "init"@
            ==> (r matches Err(m) && m@ == unknown_schema_message(command@)),
{
    proof {
        reveal_strlit("probe");
        reveal_strlit("probe-all");
        reveal_strlit("frames");
        reveal_strlit("init");
        assert("probe"@.len() == 5 && "probe-all"@.len() == 9 && "frames"@.len() == 6 && "init"@.len() == 4);
    }
    if str_eq(command, "probe") {
        Ok(SchemaCommand::Probe)
    } else if str_eq(command, "probe-all") {
        Ok(SchemaCommand::ProbeAll)
    } else if str_eq(command, "frames") {
        Ok(SchemaCommand::Frames)
    } else if str_eq(command, "init") {
        Ok(SchemaCommand::Init)
    } else {
        let mut m = String::new();
        m.append("Unknown command for schema: '");
        m.append(command);
        m.append("'. Valid: probe, probe-all, frames, init");
        Err(m)
    }
}

/// The file names among `names` whose extension is `ext` (ignoring ASCII case), in order.
pub open spec fn with_extension(names: Seq<Seq<u8>>, ext: Seq<u8>) -> Seq<Seq<u8>> {
    names.filter(|n: Seq<u8>| has_extension(n, ext))
}

/// Keeps the file names whose extension is `ext`, ignoring ASCII case.
pub fn select_with_extension(names: &Vec<Vec<u8>>, ext: &[u8]) -> (r: Vec<Vec<u8>>)
    ensures
        name_views(r@) == with_extension(name_views(names@), ext@),
        forall|n: Seq<u8>|
            #[trigger] name_views(r@).to_multiset().count(n) == if dotted_extension_is(n, ext@) {
                name_views(names@).to_multiset().count(n)
            } else {
                0
            },
{
    let mut r: Vec<Vec<u8>> = Vec::new();
    let mut i: usize = 0;
    while i < names.len()
        invariant
            i <= names.len(),
            name_views(r@) == with_extension(name_views(names@.take(i as int)), ext@),
        decreases names.len() - i,
    {
        proof {
            assert(name_views(names@.take(i + 1)) =~= name_views(names@.take(i as int)).push(names@[i as int]@));
            name_views(names@.take(i as int)).lemma_filter_push(
                names@[i as int]@,
                |n: Seq<u8>| has_extension(n, ext@),
            );
        }
        if has_extension_ignore_case(names[i].as_slice(), ext) {
            let ghost before = r@;
            r.push(slice_to_vec(names[i].as_slice()));
            assert(name_views(r@) =~= name_views(before).push(names@[i as int]@));
        }
        i += 1;
    }
    assert(names@.take(names.len() as int) =~= names@);
    assert forall|n: Seq<u8>|
        #[trigger] name_views(r@).to_multiset().count(n) == if dotted_extension_is(n, ext@) {
            name_views(names@).to_multiset().count(n)
        } else {
            0
        } by {
        lemma_selection_by_extension(name_views(names@), ext@, n);
    }
    r
}

/// The number of file names whose extension is `ext`, ignoring ASCII case: how many
/// frames `frames` reports (with `png`).
pub fn count_with_extension(names: &Vec<Vec<u8>>, ext: &[u8]) -> (r: usize)
    ensures
        r == with_extension(name_views(names@), ext@).len(),
{
    select_with_extension(names, ext).len()
}

/// The names are in byte order.
pub open spec fn sorted(names: Seq<Seq<u8>>) -> bool {
    forall|i: int, j: int| 0 <= i < j < names.len() ==> lex_le(#[trigger] names[i], #[trigger] names[j])
}

/// Sorts file names into byte order.
pub fn sort_names(names: &Vec<Vec<u8>>) -> (r: Vec<Vec<u8>>)
    ensures
        sorted(name_views(r@)),
        name_views(r@).to_multiset() == name_views(names@).to_multiset(),
{
    let mut r: Vec<Vec<u8>> = Vec::new();
    let mut i: usize = 0;
    while i < names.len()
        invariant
            i <= names.len(),
            sorted(name_views(r@)),
            name_views(r@).to_multiset() == name_views(names@.take(i as int)).to_multiset(),
        decreases names.len() - i,
    {
        let x = names[i].as_slice();
        let mut p: usize = 0;
        let mut stop = false;
        while p < r.len() && !stop
            invariant
                p <= r.len(),
                x@ == names@[i as int]@,
                forall|k: int| 0 <= k < p ==> lex_le(#[trigger] name_views(r@)[k], x@),
                stop ==> p < r.len() && !lex_le(name_views(r@)[p as int], x@),
            decreases r.len() - p, if stop { 0int } else { 1int },
        {
            if lex_le_exec(r[p].as_slice(), x) {
                p += 1;
            } else {
                stop = true;
            }
        }
        let ghost old_r = name_views(r@);
        proof {
            assert forall|j: int| p <= j < old_r.len() implies lex_le(x@, #[trigger] old_r[j]) by {
                lemma_lex_total(old_r[p as int], x@);
                if j > p {
                    lemma_lex_transitive(x@, old_r[p as int], old_r[j]);
                }
            }
        }
        r.insert(p, slice_to_vec(x));
        proof {
            let nv = name_views(r@);
            assert(nv =~= old_r.insert(p as int, x@));
            assert forall|a: int, b: int| 0 <= a < b < nv.len() implies lex_le(#[trigger] nv[a], #[trigger] nv[b]) by {
                if a < p && b < p {
                    assert(lex_le(old_r[a], old_r[b]));
                } else if a < p && b == p {
                } else if a < p && b > p {
                    assert(lex_le(old_r[a], old_r[b - 1]));
                } else if a == p {
                } else {
                    assert(lex_le(old_r[a - 1], old_r[b - 1]));
                }
            }
            assert(name_views(names@.take(i + 1)) =~= name_views(names@.take(i as int)).push(x@));
            assert(name_views(names@.take(i as int)).push(x@) =~= name_views(names@.take(i as int)).insert(
                name_views(names@.take(i as int)).len() as int,
                x@,
            ));
        }
        i += 1;
    }
    assert(names@.take(names.len() as int) =~= names@);
    r
}

/// The extension of the files that `probe-all` probes.
pub open spec fn mp4() -> Seq<u8> {
    seq![109u8, 112u8, 52u8]
}

/// The `.mp4` files among a directory's file names, in byte order of their names: the
/// files that `probe-all` probes.
pub fn probe_all_files(names: &Vec<Vec<u8>>) -> (r: Vec<Vec<u8>>)
    ensures
        sorted(name_views(r@)),
        name_views(r@).to_multiset() == with_extension(name_views(names@), mp4()).to_multiset(),
        forall|n: Seq<u8>|
            #[trigger] name_views(r@).to_multiset().count(n) == if dotted_extension_is(n, mp4()) {
                name_views(names@).to_multiset().count(n)
            } else {
                0
            },
{
    let ext: Vec<u8> = vec![109u8, 112u8, 52u8];
    assert(ext@ =~= mp4());
    let chosen = select_with_extension(names, ext.as_slice());
    sort_names(&chosen)
}

/// The order in which `probe-all` reports files depends only on which names the
/// directory holds, not on the order the directory listing gave them in: two sorted
/// lists holding the same names are the same list.
pub proof fn lemma_sorted_unique(a: Seq<Seq<u8>>, b: Seq<Seq<u8>>)
    requires
        sorted(a),
        sorted(b),
        a.to_multiset() == b.to_multiset(),
    ensures
        a == b,
    decreases a.len(),
{
    assert(a.to_multiset().len() == a.len());
    assert(b.to_multiset().len() == b.len());
    if a.len() == 0 {
        assert(b.len() == 0);
        assert(a =~= b);
    } else {
        assert(b.len() > 0);
        assert(a.to_multiset().count(a[0]) > 0);
        assert(b.contains(a[0]));
        let j = choose|j: int| 0 <= j < b.len() && b[j] == a[0];
        assert(lex_le(b[0], a[0])) by {
            if j > 0 {
                assert(lex_le(b[0], b[j]));
            } else {
                lemma_lex_total(b[0], a[0]);
            }
        }
        assert(b.to_multiset().count(b[0]) > 0);
        assert(a.contains(b[0]));
        let k = choose|k: int| 0 <= k < a.len() && a[k] == b[0];
        assert(lex_le(a[0], b[0])) by {
            if k > 0 {
                assert(lex_le(a[0], a[k]));
            } else {
                lemma_lex_total(a[0], b[0]);
            }
        }
        lemma_lex_antisymmetric(a[0], b[0]);
        assert(a.remove(0) =~= a.drop_first());
        assert(b.remove(0) =~= b.drop_first());
        assert(a.remove(0).to_multiset() == a.to_multiset().remove(a[0]));
        assert(b.remove(0).to_multiset() == b.to_multiset().remove(b[0]));
        assert forall|x: int, y: int| 0 <= x < y < a.drop_first().len() implies lex_le(
            #[trigger] a.drop_first()[x],
            #[trigger] a.drop_first()[y],
        ) by {
            assert(lex_le(a[x + 1], a[y + 1]));
        }
        assert forall|x: int, y: int| 0 <= x < y < b.drop_first().len() implies lex_le(
            #[trigger] b.drop_first()[x],
            #[trigger] b.drop_first()[y],
        ) by {
            assert(lex_le(b[x + 1], b[y + 1]));
        }
        lemma_sorted_unique(a.drop_first(), b.drop_first());
        assert(a =~= seq![a[0]] + a.drop_first());
        assert(b =~= seq![b[0]] + b.drop_first());
    }
}

proof fn lemma_filter_count<A>(s: Seq<A>, pred: spec_fn(A) -> bool, x: A)
    ensures
        s.filter(pred).to_multiset().count(x) == if pred(x) {
            s.to_multiset().count(x)
        } else {
            0
        },
    decreases s.len(),
{
    broadcast use vstd::multiset::group_multiset_axioms;

    if s.len() == 0 {
        assert(s.filter(pred) =~= Seq::<A>::empty());
    } else {
        let t = s.drop_last();
        let e = s.last();
        lemma_filter_count(t, pred, x);
        assert(s =~= t.push(e));
        t.lemma_filter_push(e, pred);
        assert(s.to_multiset() == t.to_multiset().insert(e));
        if pred(e) {
            assert(s.filter(pred).to_multiset() == t.filter(pred).to_multiset().insert(e));
        }
    }
}

/// Selecting by extension keeps every name whose extension is `ext` (up to ASCII case)
/// as often as the list holds it, whatever else the name holds, and drops every other.
pub proof fn lemma_selection_by_extension(names: Seq<Seq<u8>>, ext: Seq<u8>, name: Seq<u8>)
    ensures
        with_extension(names, ext).to_multiset().count(name) == if dotted_extension_is(name, ext) {
            names.to_multiset().count(name)
        } else {
            0
        },
{
    lemma_filter_count(names, |n: Seq<u8>| has_extension(n, ext), name);
    lemma_extension_characterized(name, ext);
}

} // verus!
