//! Installed packages.
use vstd::prelude::*;
use vstd::string::*;

use crate::order::{lex_less, str_less};
use crate::seqs::{kept, lemma_kept_step};
use crate::text::{
    chars_of, find, lines, lines_of, matches_at, opt_view, split_once, split_whitespace, stands_at,
    str_eq, strings, strip_prefix, strs, trim, trimmed, words,
};

verus! {

/// A discovered installed package.
pub struct Package {
    pub name: String,
    pub version: String,
    pub manager: String,
}

/// What a package is.
pub struct PackageView {
    pub name: Seq<char>,
    pub version: Seq<char>,
    pub manager: Seq<char>,
}

impl View for Package {
    type V = PackageView;

    open spec fn view(&self) -> PackageView {
        PackageView { name: self.name@, version: self.version@, manager: self.manager@ }
    }
}

/// What the packages of a list are.
pub open spec fn package_views(v: Seq<Package>) -> Seq<PackageView> {
    v.map_values(|p: Package| p@)
}

// ---------------------------------------------------------------------------
// dpkg
// ---------------------------------------------------------------------------

/// The place of the first blank line's pair of line feeds, or the length.
pub open spec fn find_blank(s: Seq<char>) -> int
    decreases s.len(),
{
    if s.len() == 0 {
        0
    } else if stands_at(s, "\n\n"@, 0) {
        0
    } else {
        1 + find_blank(s.skip(1))
    }
}

/// The records of a status file, which blank lines separate.
pub open spec fn records(s: Seq<char>) -> Seq<Seq<char>>
    decreases s.len(),
{
    let i = find_blank(s);
    if i < 0 || i + 2 > s.len() {
        seq![s]
    } else {
        seq![s.take(i)] + records(s.skip(i + 2))
    }
}

/// What follows `field` in the last line that begins with it.
pub open spec fn last_field(rows: Seq<Seq<char>>, field: Seq<char>) -> Option<Seq<char>>
    decreases rows.len(),
{
    if rows.len() == 0 {
        None
    } else if field.is_prefix_of(rows.last()) {
        Some(trimmed(rows.last().skip(field.len() as int)))
    } else {
        last_field(rows.drop_last(), field)
    }
}

/// Whether a status says that the package is wanted and installed: its first
/// word is the wanted action, its last the state.
pub open spec fn installed_status(status: Seq<char>) -> bool {
    let w = words(status);
    &&& w.len() > 0
    &&& w.last() == "installed"@
    &&& w[0] == "install"@ || w[0] == "hold"@
}

/// The installed package that a record describes, if it describes one.
pub open spec fn dpkg_record(record: Seq<char>) -> Option<PackageView> {
    let rows = lines(record);
    let name = last_field(rows, "Package: "@);
    let version = last_field(rows, "Version: "@);
    let status = last_field(rows, "Status: "@);
    if name is Some && version is Some && status is Some && installed_status(status->0) {
        Some(PackageView { name: name->0, version: version->0, manager: "apt"@ })
    } else {
        None
    }
}

/// What `find_blank` gives.
pub proof fn lemma_find_blank(s: Seq<char>, at: int)
    requires
        0 <= at <= s.len(),
        forall|i: int| 0 <= i < at ==> !#[trigger] stands_at(s, "\n\n"@, i),
        at < s.len() ==> stands_at(s, "\n\n"@, at),
    ensures
        find_blank(s) == at,
    decreases s.len(),
{
    reveal_strlit("\n\n");
    if at > 0 {
        assert(!stands_at(s, "\n\n"@, 0));
        let t = s.skip(1);
        assert forall|i: int| 0 <= i < at - 1 implies !#[trigger] stands_at(t, "\n\n"@, i) by {
            assert(!stands_at(s, "\n\n"@, i + 1));
            if stands_at(t, "\n\n"@, i) {
                assert(s.subrange(i + 1, i + 3) =~= t.subrange(i, i + 2));
            }
        }
        if at < s.len() {
            assert(t.subrange(at - 1, at + 1) =~= s.subrange(at, at + 2));
        }
        lemma_find_blank(t, at - 1);
    } else if s.len() > 0 {
        assert(stands_at(s, "\n\n"@, 0));
    }
}

/// The pieces of a status file between its blank lines.
fn split_records<'a>(s: &'a str) -> (r: Vec<&'a str>)
    ensures
        strs(r@) == records(s@),
{
    let chars = chars_of(s);
    let pat = chars_of("\n\n");
    proof {
        reveal_strlit("\n\n");
    }
    let mut out: Vec<&'a str> = Vec::new();
    let mut pos: usize = 0;
    assert(chars@.skip(0) =~= chars@);
    assert(strs(out@) + records(chars@) =~= records(chars@));
    loop
        invariant_except_break
            chars@ == s@,
            pat@ == "\n\n"@,
            pat@.len() == 2,
            pos <= chars@.len(),
            strs(out@) + records(chars@.skip(pos as int)) == records(s@),
        ensures
            strs(out@) == records(s@),
        decreases chars.len() - pos,
    {
        let ghost rest = chars@.skip(pos as int);
        let ghost before = strs(out@);
        let mut end: usize = pos;
        while end < chars.len() && !matches_at(&chars, end, &pat)
            invariant
                pos <= end <= chars@.len(),
                pat@ == "\n\n"@,
                pat@.len() == 2,
                rest == chars@.skip(pos as int),
                forall|i: int| 0 <= i < end - pos ==> !#[trigger] stands_at(rest, "\n\n"@, i),
            decreases chars.len() - end,
        {
            proof {
                if stands_at(rest, "\n\n"@, end - pos) {
                    assert(rest.subrange(end - pos, end - pos + 2) =~= chars@.subrange(
                        end as int,
                        end + 2,
                    ));
                }
            }
            end = end + 1;
        }
        proof {
            if end < chars@.len() {
                assert(rest.subrange(end - pos, end - pos + 2) =~= chars@.subrange(
                    end as int,
                    end + 2,
                ));
            }
            lemma_find_blank(rest, end - pos);
        }
        let piece = s.substring_char(pos, end);
        out.push(piece);
        assert(strs(out@) =~= before.push(piece@));
        if end >= chars.len() {
            assert(piece@ =~= rest);
            assert(before + seq![piece@] =~= strs(out@));
            break;
        }
        assert(piece@ =~= rest.take(end - pos));
        assert(rest.skip(end - pos + 2) =~= chars@.skip(end + 2));
        assert(before + (seq![piece@] + records(chars@.skip(end + 2))) =~= strs(out@) + records(
            chars@.skip(end + 2),
        ));
        pos = end + 2;
    }
    out
}

fn status_installed(status: &str) -> (r: bool)
    ensures
        r == installed_status(status@),
{
    let w = split_whitespace(status);
    let ghost ws = strs(w@);
    assert(ws.len() == w@.len());
    if w.len() == 0 {
        return false;
    }
    assert(ws[0] == w@[0]@);
    assert(ws.last() == w@[w@.len() - 1]@);
    str_eq(w[w.len() - 1], "installed") && (str_eq(w[0], "install") || str_eq(w[0], "hold"))
}

fn parse_dpkg_record(record: &str) -> (r: Option<Package>)
    ensures
        match r {
            Some(p) => dpkg_record(record@) == Some(p@),
            None => dpkg_record(record@) is None,
        },
{
    let all = lines_of(record);
    let ghost rows = strs(all@);
    let mut name: Option<String> = None;
    let mut version: Option<String> = None;
    let mut status: Option<String> = None;
    let mut i: usize = 0;
    while i < all.len()
        invariant
            i <= all@.len(),
            rows == strs(all@),
            opt_view(name) == last_field(rows.take(i as int), "Package: "@),
            opt_view(version) == last_field(rows.take(i as int), "Version: "@),
            opt_view(status) == last_field(rows.take(i as int), "Status: "@),
        decreases all.len() - i,
    {
        proof {
            assert(rows.take(i + 1).drop_last() =~= rows.take(i as int));
            assert(rows.take(i + 1).last() == all@[i as int]@);
            lemma_fields_apart(all@[i as int]@);
        }
        if let Some(val) = strip_prefix(all[i], "Package: ") {
            name = Some(trim(val).to_owned());
        } else if let Some(val) = strip_prefix(all[i], "Version: ") {
            version = Some(trim(val).to_owned());
        } else if let Some(val) = strip_prefix(all[i], "Status: ") {
            status = Some(trim(val).to_owned());
        }
        i = i + 1;
    }
    assert(rows.take(i as int) =~= rows);
    let status = match status {
        Some(s) => s,
        None => {
            return None;
        },
    };
    if !status_installed(status.as_str()) {
        return None;
    }
    match (name, version) {
        (Some(name), Some(version)) => Some(Package { name, version, manager: "apt".to_owned() }),
        _ => None,
    }
}

/// A line begins with at most one of the fields.
proof fn lemma_fields_apart(line: Seq<char>)
    ensures
        "Package: "@.is_prefix_of(line) ==> !"Version: "@.is_prefix_of(line)
            && !"Status: "@.is_prefix_of(line),
        "Version: "@.is_prefix_of(line) ==> !"Status: "@.is_prefix_of(line),
{
    reveal_strlit("Package: ");
    reveal_strlit("Version: ");
    reveal_strlit("Status: ");
    let p = "Package: "@;
    let v = "Version: "@;
    let s = "Status: "@;
    assert(p[0] == 'P' && v[0] == 'V' && s[0] == 'S');
    if p.is_prefix_of(line) {
        assert(line[0] == line.subrange(0, p.len() as int)[0]);
    }
    if v.is_prefix_of(line) {
        assert(line[0] == line.subrange(0, v.len() as int)[0]);
    }
    if s.is_prefix_of(line) {
        assert(line[0] == line.subrange(0, s.len() as int)[0]);
    }
}

/// The installed packages in a dpkg status file.
pub fn parse_dpkg_status(content: &str) -> (r: Vec<Package>)
    ensures
        package_views(r@) == kept(records(content@), |record: Seq<char>| dpkg_record(record)),
{
    let all = split_records(content);
    let mut out: Vec<Package> = Vec::new();
    let ghost rows = strs(all@);
    let ghost f = |record: Seq<char>| dpkg_record(record);
    let mut i: usize = 0;
    assert(package_views(out@) =~= kept(rows.take(0), f));
    while i < all.len()
        invariant
            i <= all@.len(),
            rows == strs(all@),
            f == (|record: Seq<char>| dpkg_record(record)),
            package_views(out@) == kept(rows.take(i as int), f),
        decreases all.len() - i,
    {
        proof {
            lemma_kept_step(rows, f, i as int);
            assert(rows[i as int] == all@[i as int]@);
        }
        let ghost before = package_views(out@);
        match parse_dpkg_record(all[i]) {
            Some(p) => {
                out.push(p);
                assert(package_views(out@) =~= before.push(p@));
            },
            None => {},
        }
        i = i + 1;
    }
    assert(rows.take(i as int) =~= rows);
    out
}

// ---------------------------------------------------------------------------
// rpm
// ---------------------------------------------------------------------------

/// The package in a line of the form `name|version`.
pub open spec fn rpm_row(line: Seq<char>) -> Option<PackageView> {
    let bar = find(line, '|') as int;
    let name = trimmed(line.take(bar));
    if bar < line.len() && name.len() > 0 {
        Some(PackageView { name, version: trimmed(line.skip(bar + 1)), manager: "yum"@ })
    } else {
        None
    }
}

fn parse_rpm_line(line: &str) -> (r: Option<Package>)
    ensures
        match r {
            Some(p) => rpm_row(line@) == Some(p@),
            None => rpm_row(line@) is None,
        },
{
    match split_once(line, '|') {
        Some((name, version)) => {
            let name = trim(name);
            if name.is_empty() {
                None
            } else {
                Some(
                    Package {
                        name: name.to_owned(),
                        version: trim(version).to_owned(),
                        manager: "yum".to_owned(),
                    },
                )
            }
        },
        None => None,
    }
}

/// The packages in the output of `rpm -qa`, one `name|version` to a line.
pub fn parse_rpm_output(output: &str) -> (r: Vec<Package>)
    ensures
        package_views(r@) == kept(lines(output@), |line: Seq<char>| rpm_row(line)),
{
    let all = lines_of(output);
    let mut out: Vec<Package> = Vec::new();
    let ghost rows = strs(all@);
    let ghost f = |line: Seq<char>| rpm_row(line);
    let mut i: usize = 0;
    assert(package_views(out@) =~= kept(rows.take(0), f));
    while i < all.len()
        invariant
            i <= all@.len(),
            rows == strs(all@),
            f == (|line: Seq<char>| rpm_row(line)),
            package_views(out@) == kept(rows.take(i as int), f),
        decreases all.len() - i,
    {
        proof {
            lemma_kept_step(rows, f, i as int);
            assert(rows[i as int] == all@[i as int]@);
        }
        let ghost before = package_views(out@);
        match parse_rpm_line(all[i]) {
            Some(p) => {
                out.push(p);
                assert(package_views(out@) =~= before.push(p@));
            },
            None => {},
        }
        i = i + 1;
    }
    assert(rows.take(i as int) =~= rows);
    out
}

/// A removed or half-removed package is never reported: its status does not end
/// in the installed state.
pub proof fn only_installed_packages_are_reported(record: Seq<char>)
    requires
        dpkg_record(record) is Some,
    ensures
        ({
            let status = last_field(lines(record), "Status: "@);
            &&& status is Some
            &&& words(status->0).last() == "installed"@
            &&& words(status->0)[0] != "deinstall"@
            &&& words(status->0)[0] != "purge"@
        }),
{
    reveal_strlit("install");
    reveal_strlit("hold");
    reveal_strlit("deinstall");
    reveal_strlit("purge");
    assert("install"@.len() == 7);
    assert("hold"@.len() == 4);
    assert("deinstall"@.len() == 9);
    assert("purge"@.len() == 5);
}

// ---------------------------------------------------------------------------
// Homebrew
// ---------------------------------------------------------------------------

/// A directory of the Cellar: a package, with the names of the directories in it.
pub struct CellarEntry {
    pub name: String,
    /// None where the directory could not be read.
    pub versions: Option<Vec<String>>,
}

/// The last of texts in their order; empty where there is none.
pub open spec fn greatest(texts: Seq<Seq<char>>) -> Seq<char>
    decreases texts.len(),
{
    if texts.len() == 0 {
        seq![]
    } else {
        let before = greatest(texts.drop_last());
        if lex_less(texts.last(), before) {
            before
        } else {
            texts.last()
        }
    }
}

/// The package that a directory of the Cellar is, unless it could not be read.
pub open spec fn brew_package(entry: CellarEntry) -> Option<PackageView> {
    match entry.versions {
        Some(versions) => Some(
            PackageView {
                name: entry.name@,
                version: greatest(strings(versions@)),
                manager: "brew"@,
            },
        ),
        None => None,
    }
}

fn greatest_of(versions: &Vec<String>) -> (r: String)
    ensures
        r@ == greatest(strings(versions@)),
{
    let ghost all = strings(versions@);
    let mut best = String::new();
    let mut i: usize = 0;
    assert(best@ =~= greatest(all.take(0)));
    while i < versions.len()
        invariant
            i <= versions@.len(),
            all == strings(versions@),
            best@ == greatest(all.take(i as int)),
        decreases versions.len() - i,
    {
        proof {
            assert(all.take(i + 1).drop_last() =~= all.take(i as int));
            assert(all.take(i + 1).last() == versions@[i as int]@);
        }
        if !str_less(versions[i].as_str(), best.as_str()) {
            best = versions[i].clone();
        }
        i = i + 1;
    }
    assert(all.take(i as int) =~= all);
    best
}

/// The packages of the Cellar, each with the last of its versions.
pub fn parse_brew_cellar(entries: &Vec<CellarEntry>) -> (r: Vec<Package>)
    ensures
        package_views(r@) == kept(entries@, |e: CellarEntry| brew_package(e)),
{
    let ghost f = |e: CellarEntry| brew_package(e);
    let mut out: Vec<Package> = Vec::new();
    let mut i: usize = 0;
    assert(package_views(out@) =~= kept(entries@.take(0), f));
    while i < entries.len()
        invariant
            i <= entries@.len(),
            f == (|e: CellarEntry| brew_package(e)),
            package_views(out@) == kept(entries@.take(i as int), f),
        decreases entries.len() - i,
    {
        proof {
            lemma_kept_step(entries@, f, i as int);
        }
        let ghost before = package_views(out@);
        if let Some(versions) = &entries[i].versions {
            let package = Package {
                name: entries[i].name.clone(),
                version: greatest_of(versions),
                manager: "brew".to_owned(),
            };
            out.push(package);
            assert(package_views(out@) =~= before.push(package@));
        }
        i = i + 1;
    }
    assert(entries@.take(i as int) =~= entries@);
    out
}

} // verus!
