//! Where things stand in a workspace.
use vstd::prelude::*;

use crate::text;

verus! {

/// The path of `part` below `base`. An absolute part stands for itself.
pub open spec fn path_below(base: Seq<char>, part: Seq<char>) -> Seq<char> {
    if part.len() > 0 && part[0] == '/' {
        part
    } else if base.len() == 0 || base.last() == '/' {
        base + part
    } else {
        base.push('/') + part
    }
}

/// The path of `part` below `base`.
pub fn join_path(base: &str, part: &str) -> (path: String)
    ensures
        path@ == path_below(base@, part@),
{
    let base_chars = text::chars_of(base);
    let part_chars = text::chars_of(part);
    if part_chars.len() > 0 && part_chars[0] == '/' {
        return text::copy_text(part);
    }
    let mut path = text::copy_text(base);
    if base_chars.len() > 0 && base_chars[base_chars.len() - 1] != '/' {
        path.push('/');
    }
    path.append(part);
    path
}

/// The names in a path from position `from` on: what stands between slashes, less what
/// is empty or a single dot.
pub open spec fn names_from(path: Seq<char>, from: int) -> Seq<Seq<char>>
    decreases path.len() - from,
{
    if from < 0 || from >= path.len() {
        Seq::empty()
    } else {
        let end = text::next_char(path, '/', from);
        proof {
            text::lemma_next_char(path, '/', from);
        }
        let name = path.subrange(from, end);
        let rest = if end < path.len() {
            names_from(path, end + 1)
        } else {
            Seq::empty()
        };
        if name.len() == 0 || name == "."@ {
            rest
        } else {
            seq![name] + rest
        }
    }
}

/// The components of a path: the root or a leading dot, where it begins with one of
/// them, and the names in it.
pub open spec fn components(path: Seq<char>) -> Seq<Seq<char>> {
    let lead = if path.len() > 0 && path[0] == '/' {
        seq!["/"@]
    } else if path.len() > 0 && path[0] == '.' && (path.len() == 1 || path[1] == '/') {
        seq!["."@]
    } else {
        Seq::empty()
    };
    lead + names_from(path, 0)
}

/// Whether the components of `path` begin with those of `base`.
pub open spec fn path_within(path: Seq<char>, base: Seq<char>) -> bool {
    let whole = components(path);
    let first = components(base);
    first.len() <= whole.len() && whole.take(first.len() as int) == first
}

/// The components of a path.
fn component_texts(path: &str) -> (result: Vec<String>)
    ensures
        text::texts(result@) == components(path@),
{
    let chars = text::chars_of(path);
    let mut result: Vec<String> = Vec::new();
    if chars.len() > 0 && chars[0] == '/' {
        result.push(text::copy_text("/"));
    } else if chars.len() > 0 && chars[0] == '.' && (chars.len() == 1 || chars[1] == '/') {
        result.push(text::copy_text("."));
    }
    let ghost lead = text::texts(result@);
    let mut from: usize = 0;
    assert(lead + names_from(path@, 0) =~= components(path@));
    while from < chars.len()
        invariant
            chars@ == path@,
            text::texts(result@) + names_from(path@, from as int) == components(path@),
        decreases chars@.len() - from,
    {
        let ghost before = text::texts(result@);
        let end = text::position_of(&chars, '/', from);
        let name = text::text_between(&chars, from, end);
        let kept = !name.as_str().is_empty() && !text::same_text(name.as_str(), ".");
        if kept {
            result.push(name);
            assert(text::texts(result@) =~= before.push(name@));
        }
        let ghost rest = if end < path@.len() {
            names_from(path@, end + 1)
        } else {
            Seq::empty()
        };
        assert(before + (seq![name@] + rest) =~= before.push(name@) + rest);
        if end == chars.len() {
            assert(text::texts(result@) + rest =~= text::texts(result@));
            return result;
        }
        from = end + 1;
    }
    assert(text::texts(result@) + names_from(path@, from as int) =~= text::texts(result@));
    result
}

/// Whether the components of `path` begin with those of `base`.
pub fn path_starts_with(path: &str, base: &str) -> (result: bool)
    ensures
        result == path_within(path@, base@),
{
    let whole = component_texts(path);
    let first = component_texts(base);
    let ghost a = components(path@);
    let ghost b = components(base@);
    assert(whole@.len() == a.len() && first@.len() == b.len());
    if first.len() > whole.len() {
        return false;
    }
    let mut i: usize = 0;
    while i < first.len()
        invariant
            i <= first@.len() <= whole@.len(),
            a == text::texts(whole@),
            b == text::texts(first@),
            a == components(path@),
            b == components(base@),
            forall|j: int| 0 <= j < i ==> (#[trigger] a[j]) == b[j],
        decreases first@.len() - i,
    {
        assert(a[i as int] == whole@[i as int]@ && b[i as int] == first@[i as int]@);
        if !text::same_text(whole[i].as_str(), first[i].as_str()) {
            assert(a.take(b.len() as int)[i as int] != b[i as int]);
            return false;
        }
        i += 1;
    }
    assert(a.take(b.len() as int) =~= b);
    true
}

/// The paths of a workspace.
#[derive(Debug, Clone, PartialEq, Eq)]
pub struct WorkspacePaths {
    work_dir: String,
}

impl View for WorkspacePaths {
    type V = Seq<char>;

    /// The directory of the workspace.
    closed spec fn view(&self) -> Seq<char> {
        self.work_dir@
    }
}

impl WorkspacePaths {
    pub fn new(work_dir: String) -> (paths: Self)
        ensures
            paths@ == work_dir@,
    {
        WorkspacePaths { work_dir }
    }

    /// The configuration that holds for every workspace of a user.
    pub fn home_config_file(home_dir: &str) -> (path: String)
        ensures
            path@ == path_below(home_dir@, ".mycode/config.yaml"@),
    {
        join_path(home_dir, ".mycode/config.yaml")
    }

    /// The configuration of the workspace.
    pub fn config_file(&self) -> (path: String)
        ensures
            path@ == path_below(self@, ".mycode/config.yaml"@),
    {
        join_path(self.work_dir.as_str(), ".mycode/config.yaml")
    }

    /// The configuration of the workspace that is not shared.
    pub fn local_config_file(&self) -> (path: String)
        ensures
            path@ == path_below(self@, ".mycode/config.local.yaml"@),
    {
        join_path(self.work_dir.as_str(), ".mycode/config.local.yaml")
    }

    pub fn sessions_dir(&self) -> (path: String)
        ensures
            path@ == path_below(self@, ".mycode/sessions"@),
    {
        join_path(self.work_dir.as_str(), ".mycode/sessions")
    }

    pub fn plans_dir(&self) -> (path: String)
        ensures
            path@ == path_below(self@, ".mycode/plans"@),
    {
        join_path(self.work_dir.as_str(), ".mycode/plans")
    }

    pub fn prompt_history_file(&self) -> (path: String)
        ensures
            path@ == path_below(self@, ".mycode/prompt_history.jsonl"@),
    {
        join_path(self.work_dir.as_str(), ".mycode/prompt_history.jsonl")
    }

    /// Where tool results are put that are too long to be sent.
    pub fn tool_results_dir(&self) -> (path: String)
        ensures
            path@ == path_below(self@, ".mycode/tool_results"@),
    {
        join_path(self.work_dir.as_str(), ".mycode/tool_results")
    }
}

/// A name made of a time and a counter.
pub open spec fn slug_of(time: u64, counter: u64) -> Seq<char> {
    text::decimal(time as nat) + "-"@ + text::decimal(counter as nat)
}

/// A name made of a time and a counter. Different pairs give different names.
pub fn unique_slug(time: u64, counter: u64) -> (slug: String)
    ensures
        slug@ == slug_of(time, counter),
{
    text::concat3(
        text::decimal_text(time).as_str(),
        "-",
        text::decimal_text(counter).as_str(),
    )
}

/// The characters of a decimal number are digits, at least one.
pub proof fn lemma_decimal_digits(number: nat)
    ensures
        text::decimal(number).len() > 0,
        forall|i: int|
            0 <= i < text::decimal(number).len() ==> '0' <= #[trigger] text::decimal(number)[i]
                <= '9',
    decreases number,
{
    if number >= 10 {
        lemma_decimal_digits(number / 10);
    }
}

/// Different numbers have different decimals.
pub proof fn lemma_decimal_injective(left: nat, right: nat)
    requires
        text::decimal(left) == text::decimal(right),
    ensures
        left == right,
    decreases left,
{
    let a = text::decimal(left);
    let b = text::decimal(right);
    lemma_decimal_digits(left / 10);
    lemma_decimal_digits(right / 10);
    assert(a.last() == text::digit(left % 10));
    assert(b.last() == text::digit(right % 10));
    assert(left % 10 == right % 10);
    if left >= 10 {
        assert(a.drop_last() =~= text::decimal(left / 10));
        assert(a.len() >= 2);
        assert(b.drop_last() =~= text::decimal(right / 10));
        lemma_decimal_injective(left / 10, right / 10);
    }
}

/// No two pairs of time and counter have the same name.
pub proof fn law_slugs_are_unique(time: u64, counter: u64, other_time: u64, other_counter: u64)
    requires
        slug_of(time, counter) == slug_of(other_time, other_counter),
    ensures
        time == other_time,
        counter == other_counter,
{
    reveal_strlit("-");
    let a = text::decimal(time as nat);
    let b = text::decimal(other_time as nat);
    let slug = slug_of(time, counter);
    lemma_decimal_digits(time as nat);
    lemma_decimal_digits(other_time as nat);
    assert(slug[a.len() as int] == '-');
    assert(slug_of(other_time, other_counter)[b.len() as int] == '-');
    if a.len() < b.len() {
        assert(slug_of(other_time, other_counter)[a.len() as int] == b[a.len() as int]);
    }
    if b.len() < a.len() {
        assert(slug[b.len() as int] == a[b.len() as int]);
    }
    assert(a =~= slug.take(a.len() as int));
    assert(b =~= slug_of(other_time, other_counter).take(b.len() as int));
    assert(text::decimal(counter as nat) =~= slug.skip(a.len() as int + 1));
    assert(text::decimal(other_counter as nat) =~= slug_of(other_time, other_counter).skip(
        b.len() as int + 1,
    ));
    lemma_decimal_injective(time as nat, other_time as nat);
    lemma_decimal_injective(counter as nat, other_counter as nat);
}

/// An absolute part is a path of its own; another part is put below the path, with just one
/// slash between them where there was none.
pub proof fn law_parts_are_put_below(base: Seq<char>, part: Seq<char>)
    ensures
        part.len() > 0 && part[0] == '/' ==> path_below(base, part) == part,
        (part.len() == 0 || part[0] != '/') && base.len() == 0 ==> path_below(base, part) == part,
        (part.len() == 0 || part[0] != '/') && base.len() > 0 && base.last() == '/' ==> path_below(
            base,
            part,
        ) == base + part,
        (part.len() == 0 || part[0] != '/') && base.len() > 0 && base.last() != '/' ==> path_below(
            base,
            part,
        ) == base + "/"@ + part,
{
    reveal_strlit("/");
    assert(base.push('/') =~= base + "/"@);
    assert(base.len() == 0 ==> base + part =~= part);
}

/// What is put below a path is within it.
pub proof fn law_what_is_below_is_within(base: Seq<char>, part: Seq<char>)
    requires
        part.len() == 0 || part[0] != '/',
    ensures
        path_within(path_below(base, part), base),
{
    let path = path_below(base, part);
    if base.len() > 0 {
        assert(path.take(base.len() as int) =~= base);
        assert(path[0] == base[0]);
        if base.len() > 1 {
            assert(path[1] == base[1]);
        }
        lemma_names_of_beginning(path, base, 0);
        let lead = if base[0] == '/' {
            seq!["/"@]
        } else if base[0] == '.' && (base.len() == 1 || base[1] == '/') {
            seq!["."@]
        } else {
            Seq::empty()
        };
        let first = names_from(base, 0);
        let whole = names_from(path, 0);
        assert(components(base) =~= lead + first);
        assert(components(path) =~= lead + whole);
        assert(whole.take(first.len() as int) == first);
        assert(components(path).take((lead + first).len() as int) =~= lead + first) by {
            assert forall|i: int| 0 <= i < first.len() implies whole[i] == first[i] by {
                assert(whole.take(first.len() as int)[i] == whole[i]);
            }
        }
    } else {
        assert(components(base) =~= Seq::<Seq<char>>::empty());
        assert(components(path).take(0) =~= components(base));
    }
}

/// The names in a beginning of a path that ends with a name are the first names of the path.
proof fn lemma_names_of_beginning(path: Seq<char>, base: Seq<char>, from: int)
    requires
        0 <= from,
        0 < base.len() <= path.len(),
        path.take(base.len() as int) == base,
        base.last() == '/' || (base.len() < path.len() && path[base.len() as int] == '/'),
    ensures
        names_from(base, from).len() <= names_from(path, from).len(),
        names_from(path, from).take(names_from(base, from).len() as int) == names_from(base, from),
    decreases base.len() - from,
{
    let first = names_from(base, from);
    let whole = names_from(path, from);
    if from < base.len() {
        text::lemma_next_char(base, '/', from);
        text::lemma_next_char(path, '/', from);
        let end = text::next_char(base, '/', from);
        let path_end = text::next_char(path, '/', from);
        assert forall|i: int| 0 <= i < base.len() implies path[i] == base[i] by {
            assert(path.take(base.len() as int)[i] == path[i]);
        }
        assert(path_end == end) by {
            if path_end < end {
                assert(base[path_end] == '/');
            }
            if end < path_end {
                assert(path[end] == '/');
            }
        }
        assert(path.subrange(from, end) =~= base.subrange(from, end));
        if end < base.len() {
            lemma_names_of_beginning(path, base, end + 1);
            let rest = names_from(base, end + 1);
            let more = names_from(path, end + 1);
            assert forall|i: int| 0 <= i < rest.len() implies more[i] == rest[i] by {
                assert(more.take(rest.len() as int)[i] == more[i]);
            }
        }
        assert(whole.take(first.len() as int) =~= first);
    } else {
        assert(whole.take(0) =~= first);
    }
}

/// A path consists of its names: a name below a path is one more name after those of the path,
/// and empty names and dots are none.
pub proof fn law_paths_consist_of_names(base: Seq<char>, name: Seq<char>)
    requires
        base.len() > 0,
        base.last() != '/',
        !name.contains('/'),
    ensures
        name.len() > 0 && name != "."@ ==> components(base.push('/') + name) == components(base)
            + seq![name],
        name.len() == 0 || name == "."@ ==> components(base.push('/') + name) == components(base),
{
    let path = base.push('/') + name;
    assert(path[0] == base[0]);
    if base.len() > 1 {
        assert(path[1] == base[1]);
    }
    lemma_names_below(base, name, 0);
    if name.len() > 0 && name != "."@ {
        assert(components(path) =~= components(base) + seq![name]);
    } else {
        assert(components(path) =~= components(base));
    }
}

/// The names of a path below another.
proof fn lemma_names_below(base: Seq<char>, name: Seq<char>, from: int)
    requires
        base.len() > 0,
        base.last() != '/',
        !name.contains('/'),
        0 <= from <= base.len() + 1,
    ensures
        names_from(base.push('/') + name, from) == names_from(base, from) + if name.len() == 0
            || name == "."@ {
            Seq::empty()
        } else {
            seq![name]
        },
    decreases base.len() + 1 - from,
{
    let path = base.push('/') + name;
    let added = if name.len() == 0 || name == "."@ {
        Seq::empty()
    } else {
        seq![name]
    };
    if from < base.len() {
        text::lemma_next_char(base, '/', from);
        text::lemma_next_char(path, '/', from);
        let end = text::next_char(base, '/', from);
        let found = text::next_char(path, '/', from);
        assert(path[base.len() as int] == '/');
        assert(found == end) by {
            if found < end {
                assert(base[found] == path[found]);
            }
            if end < found {
                assert(path[end] == '/');
            }
        }
        assert(path.subrange(from, end) =~= base.subrange(from, end));
        lemma_names_below(base, name, end + 1);
        if end >= base.len() {
            assert(names_from(base, end + 1) =~= Seq::<Seq<char>>::empty());
        }
        assert(names_from(path, from) =~= names_from(base, from) + added);
    } else if from == base.len() {
        text::lemma_next_char(path, '/', from);
        assert(path[from] == '/');
        assert(text::next_char(path, '/', from) == from);
        assert(path.subrange(from, from).len() == 0);
        lemma_names_below(base, name, from + 1);
        assert(names_from(base, from) =~= Seq::<Seq<char>>::empty());
        assert(names_from(base, from + 1) =~= Seq::<Seq<char>>::empty());
    } else {
        assert(names_from(base, from) =~= Seq::<Seq<char>>::empty());
        if name.len() > 0 {
            text::lemma_next_char(path, '/', from);
            let end = text::next_char(path, '/', from);
            if end < path.len() {
                assert(name[end - from] == '/');
                assert(name.contains(name[end - from]));
            }
            assert(path.subrange(from, end) =~= name);
        }
        assert(names_from(path, from) =~= added);
    }
}

} // verus!
