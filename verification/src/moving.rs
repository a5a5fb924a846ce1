//! Session names, and what becomes of them when a session moves to another
//! project.
use vstd::prelude::*;
use vstd::string::*;
use crate::order;
use crate::text;

verus! {

/// The name of a session without its project.
pub open spec fn suffix_of(name: Seq<char>) -> Seq<char> {
    match text::split_once(name, '/') {
        Some((_, suffix)) => suffix,
        None => name,
    }
}

/// The project that a typed target means: what is left of it without the
/// white space and the slashes at its ends.
pub open spec fn target_project(target: Seq<char>) -> Seq<char> {
    text::stripped(target)
}

/// Whether a typed target means no project at all.
pub open spec fn means_no_project(target: Seq<char>) -> bool {
    target_project(target).len() == 0 || target_project(target) == "other"@
}

/// The name of a session once it has moved to the target project.
pub open spec fn moved(name: Seq<char>, target: Seq<char>) -> Seq<char> {
    if means_no_project(target) {
        suffix_of(name)
    } else {
        target_project(target) + "/"@ + suffix_of(name)
    }
}

/// The name of a session without its project: `foo` of `alpha/foo`, and `bar`
/// of `bar`.
pub fn session_suffix(name: &str) -> (r: &str)
    ensures
        r@ == suffix_of(name@),
{
    let list = text::char_list(name);
    let at = text::find_from(&list, '/', 0);
    assert(name@.skip(0) =~= name@);
    if at < list.len() {
        let suffix = name.substring_char(at + 1, list.len());
        assert(suffix@ =~= name@.skip(at + 1));
        suffix
    } else {
        name
    }
}

/// The name of the session `name` once it has moved to `target_project`, which
/// white space and slashes may surround. The suffix stays; an empty target or
/// "other" takes the project away.
pub fn moved_name(name: &str, target_project: &str) -> (r: String)
    ensures
        r@ == moved(name@, target_project@),
{
    let suffix = session_suffix(name);
    let project = text::strip_ends(target_project);
    if project.is_empty() || text::same_text(project, "other") {
        suffix.to_string()
    } else {
        let mut out = project.to_string();
        out.append("/");
        out.append(suffix);
        out
    }
}

// --- Laws ---

/// A text that starts with a project without slashes, followed by a slash,
/// splits there.
proof fn lemma_split_prefixed(project: Seq<char>, suffix: Seq<char>)
    requires
        !project.contains('/'),
    ensures
        text::split_once(project + "/"@ + suffix, '/') == Some((project, suffix)),
{
    reveal_strlit("/");
    let whole = project + "/"@ + suffix;
    let n = project.len() as int;
    assert(whole[n] == '/');
    assert forall|j: int| 0 <= j < n implies whole[j] != '/' by {
        assert(whole[j] == project[j]);
        assert(project.contains(project[j]));
    }
    text::lemma_find(whole, '/', n);
    assert(whole.take(n) =~= project);
    assert(whole.skip(n + 1) =~= suffix);
}

/// Moving a session to a project keeps its suffix and puts it in that project.
/// The target is one that names a project without a slash inside.
pub proof fn moving_keeps_the_suffix(name: Seq<char>, target: Seq<char>)
    requires
        !means_no_project(target),
        !target_project(target).contains('/'),
    ensures
        suffix_of(moved(name, target)) == suffix_of(name),
        order::project_of(moved(name, target)) == target_project(target),
{
    lemma_split_prefixed(target_project(target), suffix_of(name));
}

/// Moving a session out of its project leaves the bare suffix, which belongs
/// to no project. The suffix is one without a slash inside.
pub proof fn moving_out_leaves_the_suffix(name: Seq<char>, target: Seq<char>)
    requires
        means_no_project(target),
        !suffix_of(name).contains('/'),
    ensures
        moved(name, target) == suffix_of(name),
        suffix_of(moved(name, target)) == suffix_of(name),
        order::project_of(moved(name, target)) == "other"@,
{
    let s = suffix_of(name);
    assert forall|j: int| 0 <= j < s.len() implies s[j] != '/' by {
        assert(s.contains(s[j]));
    }
    text::lemma_find(s, '/', s.len() as int);
}

/// Moving twice is moving once to the second project. The first target names a
/// project without a slash inside, or none where the suffix has no slash.
pub proof fn moving_twice(name: Seq<char>, first: Seq<char>, second: Seq<char>)
    requires
        !means_no_project(first) ==> !target_project(first).contains('/'),
        means_no_project(first) ==> !suffix_of(name).contains('/'),
    ensures
        moved(moved(name, first), second) == moved(name, second),
{
    if means_no_project(first) {
        moving_out_leaves_the_suffix(name, first);
    } else {
        moving_keeps_the_suffix(name, first);
    }
}

/// Moving a session to the project it is in changes nothing. A project that
/// the name spells out is one that stands for itself as a target, and is not
/// called "other".
pub proof fn moving_to_own_project(name: Seq<char>)
    requires
        text::split_once(name, '/') is Some ==> target_project(order::project_of(name))
            == order::project_of(name) && !means_no_project(order::project_of(name)),
    ensures
        moved(name, order::project_of(name)) == name,
{
    if text::split_once(name, '/') is Some {
        reveal_strlit("/");
        text::lemma_find_bounds(name, '/');
        let at = text::find(name, '/');
        assert(name.take(at) + "/"@ + name.skip(at + 1) =~= name);
    } else {
        reveal_strlit("other");
        assert(text::stripped("other"@) == "other"@);
    }
}

/// What becomes of a name in another project: the project, without the white
/// space and the slashes that were typed round it, a slash, and what followed
/// the first slash of the name, or all of a name without one. Where no project
/// is left of what was typed, or only `other`, it is that last part alone.
pub proof fn a_moved_name_spells_out_its_project(
    project: Seq<char>,
    suffix: Seq<char>,
    bare: Seq<char>,
    left: Seq<char>,
    core: Seq<char>,
    right: Seq<char>,
)
    requires
        !project.contains('/'),
        !bare.contains('/'),
        forall|i: int|
            0 <= i < left.len() ==> text::white_space(#[trigger] left[i]) || left[i] == '/',
        forall|i: int|
            0 <= i < right.len() ==> text::white_space(#[trigger] right[i]) || right[i] == '/',
        core.len() > 0 ==> !text::white_space(core[0]) && core[0] != '/',
        core.len() > 0 ==> !text::white_space(core.last()) && core.last() != '/',
    ensures
        ({
            let name = project + seq!['/'] + suffix;
            let target = left + core + right;
            &&& core.len() > 0 && core != "other"@ ==> moved(name, target) == core + seq!['/']
                + suffix && moved(bare, target) == core + seq!['/'] + bare
            &&& core.len() == 0 || core == "other"@ ==> moved(name, target) == suffix && moved(
                bare,
                target,
            ) == bare
            &&& suffix_of(name) == suffix
            &&& suffix_of(bare) == bare
        }),
{
    text::stripping_takes_the_ends_off(left, core, right);
    text::splitting_undoes_joining(project, '/', suffix);
    text::splitting_is_at_the_first(bare, '/');
    if let Some((head, tail)) = text::split_once(bare, '/') {
        assert(bare[head.len() as int] == '/');
        assert(bare.contains(bare[head.len() as int]));
    }
    reveal_strlit("/");
    assert("/"@ =~= seq!['/']);
}

}
