use vstd::prelude::*;

use crate::text::{lowercase_of, opt_view, to_lower};
use crate::translate::{lookup, IdTable};

verus! {

/// Why a `package==version` argument was refused.
#[derive(Debug, Clone, PartialEq, Eq)]
pub enum ParsePackageVersionError {
    /// Nothing but whitespace was given.
    Empty,
    /// The text (trimmed) has no `==`, or nothing after its only `==`.
    InvalidFormat(String),
}

/// A string with leading and trailing whitespace removed, as `str::trim` does it.
pub uninterp spec fn trimmed_of(s: Seq<char>) -> Seq<char>;

/// Relies on `str::trim`: the result depends on the characters alone.
#[verifier::external_body]
fn trim(s: &str) -> (r: String)
    ensures
        r@ == trimmed_of(s@),
{
    s.trim().to_string()
}

/// Whether `==` starts at position `i` of `s`.
pub open spec fn sep_at(s: Seq<char>, i: int) -> bool {
    0 <= i && i + 1 < s.len() && s[i] == '=' && s[i + 1] == '='
}

/// The first `==` of `s` at or after `from`.
pub open spec fn is_first_sep(s: Seq<char>, from: int, i: int) -> bool {
    from <= i && sep_at(s, i) && forall|k: int| from <= k < i ==> !sep_at(s, k)
}

/// The version of a trimmed `package==version` text: the piece between the
/// first and the second `==` (or the end). A text with no `==`, or whose only
/// `==` ends it, has none.
pub open spec fn version_of(t: Seq<char>) -> Option<Seq<char>> {
    if exists|p: int| is_first_sep(t, 0, p) {
        let p = choose|p: int| is_first_sep(t, 0, p);
        version_from(t, p + 2)
    } else {
        None
    }
}

/// The version that starts at `start`, just after the first `==`.
pub open spec fn version_from(t: Seq<char>, start: int) -> Option<Seq<char>> {
    if exists|q: int| is_first_sep(t, start, q) {
        let q = choose|q: int| is_first_sep(t, start, q);
        Some(t.subrange(start, q))
    } else if start == t.len() {
        None
    } else {
        Some(t.subrange(start, t.len() as int))
    }
}

/// The first `==` of `t` at or after `from`.
fn find_sep(t: &str, from: usize) -> (r: Option<usize>)
    requires
        from <= t@.len(),
    ensures
        r matches Some(i) ==> is_first_sep(t@, from as int, i as int),
        r is None ==> !exists|i: int| is_first_sep(t@, from as int, i),
{
    let n = t.unicode_len();
    let mut i = from;
    while n - i > 1
        invariant
            n == t@.len(),
            from <= i <= n,
            forall|k: int| from <= k < i ==> !sep_at(t@, k),
        decreases n - i,
    {
        if t.get_char(i) == '=' && t.get_char(i + 1) == '=' {
            return Some(i);
        }
        i += 1;
    }
    proof {
        if exists|j: int| is_first_sep(t@, from as int, j) {
            let j = choose|j: int| is_first_sep(t@, from as int, j);
            assert(sep_at(t@, j));
        }
    }
    None
}

proof fn lemma_first_sep_unique(s: Seq<char>, from: int, i: int, j: int)
    requires
        is_first_sep(s, from, i),
        is_first_sep(s, from, j),
    ensures
        i == j,
{
    if i < j {
        assert(!sep_at(s, i));
    } else if j < i {
        assert(!sep_at(s, j));
    }
}

/// Reads the version out of a `package==version` argument.
pub fn parse_package_version(package_version: &str) -> (r: Result<String, ParsePackageVersionError>)
    ensures
        trimmed_of(package_version@).len() == 0 <==> r == Err::<String, ParsePackageVersionError>(ParsePackageVersionError::Empty),
        trimmed_of(package_version@).len() > 0 ==> match version_of(trimmed_of(package_version@)) {
            Some(v) => r matches Ok(s) && s@ == v,
            None => r matches Err(ParsePackageVersionError::InvalidFormat(t)) && t@ == trimmed_of(package_version@),
        },
{
    let trimmed = trim(package_version);
    let t = trimmed.as_str();
    let n = t.unicode_len();
    if n == 0 {
        return Err(ParsePackageVersionError::Empty);
    }
    let ghost tv = t@;
    match find_sep(t, 0) {
        None => Err(ParsePackageVersionError::InvalidFormat(trimmed.clone())),
        Some(p) => {
            proof {
                let c = choose|p: int| is_first_sep(tv, 0, p);
                lemma_first_sep_unique(tv, 0, c, p as int);
            }
            match find_sep(t, p + 2) {
                Some(q) => {
                    proof {
                        let start = p + 2;
                        let c = choose|q: int| is_first_sep(tv, start, q);
                        lemma_first_sep_unique(tv, start, c, q as int);
                    }
                    Ok(String::from_str(t.substring_char(p + 2, q)))
                },
                None => {
                    if p + 2 == n {
                        Err(ParsePackageVersionError::InvalidFormat(trimmed.clone()))
                    } else {
                        Ok(String::from_str(t.substring_char(p + 2, n)))
                    }
                },
            }
        },
    }
}

/// An interpreter package installed on the platform.
#[derive(Debug, Clone, PartialEq, Eq)]
pub struct PipPackage {
    pub name: String,
    pub version: Option<String>,
    pub python_version: String,
    pub id: Option<String>,
    pub requires: Option<Vec<String>>,
    pub license: Option<String>,
    pub author_email: Option<String>,
    pub author: Option<String>,
    pub home_page: Option<String>,
    pub summary: Option<String>,
    pub disabled: Option<bool>,
}

/// A requirements line that is not in `package==version` form.
#[derive(Debug, Clone, Copy, PartialEq, Eq)]
pub struct InvalidFormat;

/// Why a requirements file was refused. Lines are numbered from 1.
#[derive(Debug, Clone, PartialEq, Eq)]
pub enum UploadRequirementsError {
    /// A line (trimmed) that is not exactly `package==version`.
    InvalidFormat { line_number: usize, line: String },
    /// A package named on two lines.
    DuplicatePackage { key: String, line_number: usize, existing_value: String, new_value: String },
}

/// A requirements error with its texts as sequences.
pub enum RequirementsErrorView {
    InvalidFormat { line_number: int, line: Seq<char> },
    DuplicatePackage { key: Seq<char>, line_number: int, existing_value: Seq<char>, new_value: Seq<char> },
}

impl View for UploadRequirementsError {
    type V = RequirementsErrorView;

    open spec fn view(&self) -> RequirementsErrorView {
        match self {
            UploadRequirementsError::InvalidFormat { line_number, line } => RequirementsErrorView::InvalidFormat {
                line_number: *line_number as int,
                line: line@,
            },
            UploadRequirementsError::DuplicatePackage { key, line_number, existing_value, new_value } => {
                RequirementsErrorView::DuplicatePackage {
                    key: key@,
                    line_number: *line_number as int,
                    existing_value: existing_value@,
                    new_value: new_value@,
                }
            },
        }
    }
}

/// The two sides of a text with exactly one `==`.
pub open spec fn split_pair(t: Seq<char>) -> Option<(Seq<char>, Seq<char>)> {
    if exists|p: int| is_first_sep(t, 0, p) {
        let p = choose|p: int| is_first_sep(t, 0, p);
        pair_at(t, p, p + 2)
    } else {
        None
    }
}

/// The two sides of `t` around the `==` at `p`, when no `==` follows from `rest` on.
pub open spec fn pair_at(t: Seq<char>, p: int, rest: int) -> Option<(Seq<char>, Seq<char>)> {
    if exists|q: int| is_first_sep(t, rest, q) {
        None
    } else {
        Some((t.subrange(0, p), t.subrange(rest, t.len() as int)))
    }
}

/// Reading line `i` (from 0) into the packages read so far: a comment (`#`
/// first, once trimmed) is skipped; otherwise the line must be one
/// `package==version`, both sides lower-cased, with a package not seen before.
pub open spec fn requirement_step(
    acc: Seq<(Seq<char>, Seq<char>)>,
    i: int,
    line: Seq<char>,
) -> Result<Seq<(Seq<char>, Seq<char>)>, RequirementsErrorView> {
    let t = trimmed_of(line);
    if t.len() > 0 && t[0] == '#' {
        Ok(acc)
    } else {
        match split_pair(t) {
            None => Err(RequirementsErrorView::InvalidFormat { line_number: i + 1, line: t }),
            Some(kv) => {
                let k = lowercase_of(kv.0);
                let v = lowercase_of(kv.1);
                match lookup(acc, k) {
                    Some(e) => Err(RequirementsErrorView::DuplicatePackage {
                        key: k,
                        line_number: i + 1,
                        existing_value: e,
                        new_value: v,
                    }),
                    None => Ok(acc.push((k, v))),
                }
            },
        }
    }
}

/// The packages of a requirements file, in the order of its lines, or the
/// error of its first bad line.
pub open spec fn requirements_spec(lines: Seq<Seq<char>>) -> Result<Seq<(Seq<char>, Seq<char>)>, RequirementsErrorView>
    decreases lines.len(),
{
    if lines.len() == 0 {
        Ok(seq![])
    } else {
        match requirements_spec(lines.drop_last()) {
            Err(e) => Err(e),
            Ok(acc) => requirement_step(acc, lines.len() - 1, lines.last()),
        }
    }
}

pub open spec fn lines_view(lines: Seq<String>) -> Seq<Seq<char>> {
    lines.map_values(|l: String| l@)
}

/// Reads one line into `acc`, as `requirement_step` says.
fn read_requirement(acc: &mut IdTable, i: usize, line: &String) -> (r: Result<(), UploadRequirementsError>)
    requires
        i < usize::MAX,
    ensures
        match requirement_step(old(acc)@, i as int, line@) {
            Ok(next) => r is Ok && final(acc)@ == next,
            Err(e) => r matches Err(x) && x@ == e,
        },
{
    let trimmed = trim(line.as_str());
    let t = trimmed.as_str();
    let n = t.unicode_len();
    if n > 0 && t.get_char(0) == '#' {
        return Ok(());
    }
    let ghost tv = t@;
    let p = match find_sep(t, 0) {
        None => {
            proof {
                assert(!exists|p: int| is_first_sep(tv, 0, p));
            }
            return Err(UploadRequirementsError::InvalidFormat { line_number: i + 1, line: trimmed.clone() });
        },
        Some(p) => p,
    };
    proof {
        let c = choose|p: int| is_first_sep(tv, 0, p);
        lemma_first_sep_unique(tv, 0, c, p as int);
    }
    if find_sep(t, p + 2).is_some() {
        return Err(UploadRequirementsError::InvalidFormat { line_number: i + 1, line: trimmed.clone() });
    }
    let key = to_lower(&String::from_str(t.substring_char(0, p)));
    let value = to_lower(&String::from_str(t.substring_char(p + 2, n)));
    match acc.get(&key) {
        Some(existing) => {
            let existing_value = existing.clone();
            Err(UploadRequirementsError::DuplicatePackage { key, line_number: i + 1, existing_value, new_value: value })
        },
        None => {
            let ghost before = acc@;
            let ghost kv = (key@, value@);
            acc.entries.push((key, value));
            assert(acc@ =~= before.push(kv));
            Ok(())
        },
    }
}

/// Reads the lines of a requirements file into its packages, lower-cased, in
/// line order; comment lines are skipped.
pub fn parse_requirements(lines: &Vec<String>) -> (r: Result<Vec<(String, String)>, UploadRequirementsError>)
    requires
        lines.len() < usize::MAX,
    ensures
        match requirements_spec(lines_view(lines@)) {
            Ok(ps) => r matches Ok(v) && v@.map_values(|e: (String, String)| (e.0@, e.1@)) == ps,
            Err(e) => r matches Err(x) && x@ == e,
        },
{
    let ghost lv = lines_view(lines@);
    let mut acc = IdTable::new();
    let mut i: usize = 0;
    assert(lv.subrange(0, 0) =~= Seq::<Seq<char>>::empty());
    assert(acc@ =~= Seq::<(Seq<char>, Seq<char>)>::empty());
    while i < lines.len()
        invariant
            i <= lines.len(),
            lines.len() < usize::MAX,
            lv == lines_view(lines@),
            lv.len() == lines.len(),
            requirements_spec(lv.subrange(0, i as int)) == Ok::<Seq<(Seq<char>, Seq<char>)>, RequirementsErrorView>(acc@),
        decreases lines.len() - i,
    {
        let ghost p = lv.subrange(0, i as int + 1);
        assert(p.drop_last() =~= lv.subrange(0, i as int));
        assert(lv[i as int] == lines@[i as int]@);
        assert(p.last() == lines@[i as int]@);
        match read_requirement(&mut acc, i, &lines[i]) {
            Ok(()) => {},
            Err(e) => {
                proof { lemma_requirements_error_stays(lv, i as int + 1); }
                return Err(e);
            },
        }
        i += 1;
    }
    assert(lv.subrange(0, lines.len() as int) =~= lv);
    Ok(acc.entries)
}

/// Once a prefix of the lines fails, the whole file fails the same way.
proof fn lemma_requirements_error_stays(lines: Seq<Seq<char>>, k: int)
    requires
        0 <= k <= lines.len(),
        requirements_spec(lines.subrange(0, k)) is Err,
    ensures
        requirements_spec(lines) == requirements_spec(lines.subrange(0, k)),
    decreases lines.len() - k,
{
    if k < lines.len() {
        let p = lines.subrange(0, k + 1);
        assert(p.drop_last() =~= lines.subrange(0, k));
        lemma_requirements_error_stays(lines, k + 1);
    } else {
        assert(lines.subrange(0, k) =~= lines);
    }
}

/// What to do about one requirement: 0 to install it, 1 to replace an
/// installed copy of another version, 2 when it is installed as asked.
pub open spec fn requirement_action(kv: (Seq<char>, Seq<char>), installed: Seq<PipPackage>) -> int {
    if exists|p: int| 0 <= p < installed.len() && (#[trigger] installed[p]).name@ == kv.0
        && opt_view(installed[p].version) != Some(kv.1) {
        1
    } else if exists|p: int| 0 <= p < installed.len() && (#[trigger] installed[p]).name@ == kv.0
        && opt_view(installed[p].version) == Some(kv.1) {
        2
    } else {
        0
    }
}

/// The requirements whose action is `a`, in order.
pub open spec fn requirements_with(reqs: Seq<(Seq<char>, Seq<char>)>, installed: Seq<PipPackage>, a: int) -> Seq<(Seq<char>, Seq<char>)>
    decreases reqs.len(),
{
    if reqs.len() == 0 {
        seq![]
    } else {
        requirements_with(reqs.drop_last(), installed, a) + if requirement_action(reqs.last(), installed) == a {
            seq![reqs.last()]
        } else {
            seq![]
        }
    }
}

/// What an upload of requirements does: the packages to uninstall first (those
/// installed at another version), then the packages to install (the new ones,
/// then the replaced ones).
#[derive(Debug)]
pub struct RequirementsPlan {
    pub to_uninstall: Vec<String>,
    pub to_install: Vec<(String, String)>,
}

pub open spec fn pairs_view(v: Seq<(String, String)>) -> Seq<(Seq<char>, Seq<char>)> {
    v.map_values(|e: (String, String)| (e.0@, e.1@))
}

fn action_of(name: &String, version: &String, installed: &Vec<PipPackage>) -> (r: u8)
    ensures
        r as int == requirement_action((name@, version@), installed@),
{
    let mut other = false;
    let mut same = false;
    let mut p: usize = 0;
    while p < installed.len()
        invariant
            p <= installed.len(),
            other == exists|k: int| 0 <= k < p && (#[trigger] installed@[k]).name@ == name@
                && opt_view(installed@[k].version) != Some(version@),
            same == exists|k: int| 0 <= k < p && (#[trigger] installed@[k]).name@ == name@
                && opt_view(installed@[k].version) == Some(version@),
        decreases installed.len() - p,
    {
        let q = &installed[p];
        if q.name == *name {
            let eq = match &q.version {
                Some(v) => *v == *version,
                None => false,
            };
            if eq {
                same = true;
            } else {
                other = true;
            }
        }
        p += 1;
    }
    if other {
        1
    } else if same {
        2
    } else {
        0
    }
}

/// Decides what an upload of requirements installs and uninstalls, given the
/// packages installed on the server.
pub fn plan_requirements(requirements: &Vec<(String, String)>, installed: &Vec<PipPackage>) -> (r: RequirementsPlan)
    ensures
        r.to_uninstall@.map_values(|n: String| n@) == requirements_with(pairs_view(requirements@), installed@, 1).map_values(
            |e: (Seq<char>, Seq<char>)| e.0,
        ),
        pairs_view(r.to_install@) == requirements_with(pairs_view(requirements@), installed@, 0)
            + requirements_with(pairs_view(requirements@), installed@, 1),
{
    let ghost rv = pairs_view(requirements@);
    let mut install: Vec<(String, String)> = Vec::new();
    let mut update: Vec<(String, String)> = Vec::new();
    let mut i: usize = 0;
    assert(pairs_view(install@) =~= requirements_with(rv.subrange(0, 0), installed@, 0));
    assert(pairs_view(update@) =~= requirements_with(rv.subrange(0, 0), installed@, 1));
    while i < requirements.len()
        invariant
            i <= requirements.len(),
            rv == pairs_view(requirements@),
            rv.len() == requirements.len(),
            pairs_view(install@) == requirements_with(rv.subrange(0, i as int), installed@, 0),
            pairs_view(update@) == requirements_with(rv.subrange(0, i as int), installed@, 1),
        decreases requirements.len() - i,
    {
        let ghost p = rv.subrange(0, i as int + 1);
        assert(p.drop_last() =~= rv.subrange(0, i as int));
        assert(rv[i as int] == (requirements@[i as int].0@, requirements@[i as int].1@));
        assert(p.last() == rv[i as int]);
        let ghost bi = pairs_view(install@);
        let ghost bu = pairs_view(update@);
        let (name, version) = (&requirements[i].0, &requirements[i].1);
        let a = action_of(name, version, installed);
        if a == 0 {
            install.push((name.clone(), version.clone()));
            assert(pairs_view(install@) =~= bi.push(rv[i as int]));
        } else if a == 1 {
            update.push((name.clone(), version.clone()));
            assert(pairs_view(update@) =~= bu.push(rv[i as int]));
        }
        assert(pairs_view(install@) =~= requirements_with(p, installed@, 0));
        assert(pairs_view(update@) =~= requirements_with(p, installed@, 1));
        i += 1;
    }
    assert(rv.subrange(0, requirements.len() as int) =~= rv);
    let ghost uv = pairs_view(update@);
    let mut to_uninstall: Vec<String> = Vec::new();
    let mut k: usize = 0;
    while k < update.len()
        invariant
            k <= update.len(),
            uv == pairs_view(update@),
            uv.len() == update.len(),
            to_uninstall@.map_values(|n: String| n@) == uv.subrange(0, k as int).map_values(|e: (Seq<char>, Seq<char>)| e.0),
        decreases update.len() - k,
    {
        assert(uv[k as int] == (update@[k as int].0@, update@[k as int].1@));
        let ghost before = to_uninstall@.map_values(|n: String| n@);
        to_uninstall.push(update[k].0.clone());
        assert(to_uninstall@.map_values(|n: String| n@) =~= before.push(uv[k as int].0));
        assert(uv.subrange(0, k as int + 1) =~= uv.subrange(0, k as int).push(uv[k as int]));
        assert(uv.subrange(0, k as int + 1).map_values(|e: (Seq<char>, Seq<char>)| e.0)
            =~= uv.subrange(0, k as int).map_values(|e: (Seq<char>, Seq<char>)| e.0).push(uv[k as int].0));
        k += 1;
        assert(to_uninstall@.map_values(|n: String| n@) =~= uv.subrange(0, k as int).map_values(|e: (Seq<char>, Seq<char>)| e.0));
    }
    assert(uv.subrange(0, update.len() as int) =~= uv);
    let ghost iv = pairs_view(install@);
    let mut to_install = install;
    let mut m: usize = 0;
    while m < update.len()
        invariant
            m <= update.len(),
            uv == pairs_view(update@),
            uv.len() == update.len(),
            pairs_view(to_install@) == iv + uv.subrange(0, m as int),
        decreases update.len() - m,
    {
        assert(uv[m as int] == (update@[m as int].0@, update@[m as int].1@));
        let ghost before = pairs_view(to_install@);
        to_install.push((update[m].0.clone(), update[m].1.clone()));
        assert(pairs_view(to_install@) =~= before.push(uv[m as int]));
        assert(uv.subrange(0, m as int + 1) =~= uv.subrange(0, m as int).push(uv[m as int]));
        m += 1;
        assert(pairs_view(to_install@) =~= iv + uv.subrange(0, m as int));
    }
    RequirementsPlan { to_uninstall, to_install }
}

impl PipPackage {
    /// The package in requirements form: `name==version`, or `name==latest`
    /// when no version is known.
    pub fn freeze_line(&self) -> (r: String)
        ensures
            r@ == self.name@ + "=="@ + match self.version {
                Some(v) => v@,
                None => "latest"@,
            },
    {
        let line = self.name.clone().concat("==");
        match &self.version {
            Some(v) => line.concat(v.as_str()),
            None => line.concat("latest"),
        }
    }
}

} // verus!
