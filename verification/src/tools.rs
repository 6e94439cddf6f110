//! The external programs (FFmpeg, ffprobe, Ghostscript): where they are looked for,
//! user overrides, and the errors given when one is missing.
use vstd::prelude::*;
use vstd::string::*;
use crate::path::{join, last_index, lower, parent, path_join, path_parent};
use crate::text::{cat, has_prefix, is_blank, texts, trim, trimmed};

verus! {

/// Paths of the external programs, when found.
#[derive(Debug, Clone)]
pub struct Tools {
    pub ffmpeg: Option<String>,
    pub ffprobe: Option<String>,
    pub ghostscript: Option<String>,
}

impl Tools {
    /// The FFmpeg path, or the error telling how to install it.
    pub fn ffmpeg(&self) -> (r: Result<&String, String>)
        ensures
            match self.ffmpeg {
                Some(p) => r matches Ok(q) && *q == p,
                None => r matches Err(e) && e@
                    == "FFmpeg not found. Install it (brew install ffmpeg) or set the path in Settings."@,
            },
    {
        match &self.ffmpeg {
            Some(p) => Ok(p),
            None => Err(String::from_str(
                "FFmpeg not found. Install it (brew install ffmpeg) or set the path in Settings.",
            )),
        }
    }

    /// The ffprobe path, or the error telling where it comes from.
    pub fn ffprobe(&self) -> (r: Result<&String, String>)
        ensures
            match self.ffprobe {
                Some(p) => r matches Ok(q) && *q == p,
                None => r matches Err(e) && e@ == "ffprobe not found (comes with FFmpeg)."@,
            },
    {
        match &self.ffprobe {
            Some(p) => Ok(p),
            None => Err(String::from_str("ffprobe not found (comes with FFmpeg).")),
        }
    }

    /// The Ghostscript path, or the error telling how to install it.
    pub fn gs(&self) -> (r: Result<&String, String>)
        ensures
            match self.ghostscript {
                Some(p) => r matches Ok(q) && *q == p,
                None => r matches Err(e) && e@
                    == "Ghostscript not found. Install it (brew install ghostscript) to compress PDFs."@,
            },
    {
        match &self.ghostscript {
            Some(p) => Ok(p),
            None => Err(String::from_str(
                "Ghostscript not found. Install it (brew install ghostscript) to compress PDFs.",
            )),
        }
    }
}

/// Folders searched (after `PATH`) for programs that GUI apps do not see on `PATH`.
pub open spec fn extra_dirs() -> Seq<Seq<char>> {
    seq![
        "/opt/homebrew/bin"@,
        "/usr/local/bin"@,
        "/usr/bin"@,
        "C:\\ffmpeg\\bin"@,
        "C:\\Program Files\\gs\\bin"@,
    ]
}

/// The paths tried in folder `d` for the program names `names`: each name, then
/// the name with `.exe`.
pub open spec fn dir_candidates(d: Seq<char>, names: Seq<Seq<char>>) -> Seq<Seq<char>>
    decreases names.len(),
{
    if names.len() == 0 {
        Seq::empty()
    } else {
        seq![join(d, names[0]), join(d, names[0] + ".exe"@)] + dir_candidates(d, names.skip(1))
    }
}

/// The paths tried, in order, in every extra folder.
pub open spec fn search_candidates(dirs: Seq<Seq<char>>, names: Seq<Seq<char>>) -> Seq<Seq<char>>
    decreases dirs.len(),
{
    if dirs.len() == 0 {
        Seq::empty()
    } else {
        dir_candidates(dirs[0], names) + search_candidates(dirs.skip(1), names)
    }
}

fn dir_list(d: &str, names: &Vec<String>) -> (r: Vec<String>)
    ensures
        texts(r@) == dir_candidates(d@, texts(names@)),
{
    let ghost all = texts(names@);
    let mut out: Vec<String> = Vec::new();
    let mut i: usize = 0;
    assert(all.skip(0) =~= all);
    assert(texts(out@) + dir_candidates(d@, all) =~= dir_candidates(d@, all));
    while i < names.len()
        invariant
            all == texts(names@),
            i <= names@.len(),
            texts(out@) + dir_candidates(d@, all.skip(i as int)) == dir_candidates(d@, all),
        decreases names@.len() - i,
    {
        let ghost rest = all.skip(i as int);
        let ghost o0 = texts(out@);
        assert(rest[0] == names@[i as int]@);
        assert(rest.skip(1) =~= all.skip(i + 1));
        out.push(path_join(d, names[i].as_str()));
        let exe = cat(names[i].as_str(), ".exe");
        out.push(path_join(d, exe.as_str()));
        assert(texts(out@) =~= o0 + seq![join(d@, rest[0]), join(d@, rest[0] + ".exe"@)]);
        i = i + 1;
    }
    assert(all.skip(i as int) =~= Seq::<Seq<char>>::empty());
    assert(texts(out@) =~= dir_candidates(d@, all));
    out
}

/// The paths to try, in order, for a program known by any of `names`, once a
/// `PATH` lookup of each name has failed.
pub fn search_paths(names: &Vec<String>) -> (r: Vec<String>)
    ensures
        texts(r@) == search_candidates(extra_dirs(), texts(names@)),
{
    let dirs: [&str; 5] = [
        "/opt/homebrew/bin",
        "/usr/local/bin",
        "/usr/bin",
        "C:\\ffmpeg\\bin",
        "C:\\Program Files\\gs\\bin",
    ];
    let ghost ds = extra_dirs();
    assert(forall|k: int| 0 <= k < 5 ==> #[trigger] dirs@[k]@ == ds[k]);
    let mut out: Vec<String> = Vec::new();
    let mut i: usize = 0;
    assert(ds.skip(0) =~= ds);
    assert(texts(out@) + search_candidates(ds, texts(names@)) =~= search_candidates(ds, texts(names@)));
    while i < 5
        invariant
            ds == extra_dirs(),
            ds.len() == 5,
            forall|k: int| 0 <= k < 5 ==> #[trigger] dirs@[k]@ == ds[k],
            i <= 5,
            texts(out@) + search_candidates(ds.skip(i as int), texts(names@)) == search_candidates(
                ds,
                texts(names@),
            ),
        decreases 5 - i,
    {
        let ghost rest = ds.skip(i as int);
        let ghost o0 = texts(out@);
        assert(rest[0] == dirs@[i as int]@);
        assert(rest.skip(1) =~= ds.skip(i + 1));
        let mut part = dir_list(dirs[i], names);
        let ghost p = texts(part@);
        out.append(&mut part);
        assert(texts(out@) =~= o0 + p);
        i = i + 1;
    }
    assert(ds.skip(5) =~= Seq::<Seq<char>>::empty());
    assert(texts(out@) =~= search_candidates(ds, texts(names@)));
    out
}

/// A user-set program path, when it is not blank (surrounding white space removed).
pub open spec fn override_of(o: Option<String>) -> Option<Seq<char>> {
    match o {
        Some(p) => if trimmed(p@).len() == 0 { None } else { Some(trimmed(p@)) },
        None => None,
    }
}

/// A user-set program path, when it is not blank.
pub fn override_path(o: &Option<String>) -> (r: Option<String>)
    ensures
        match override_of(*o) {
            None => r is None,
            Some(p) => r matches Some(s) && s@ == p,
        },
{
    match o {
        Some(p) => if is_blank(p.as_str()) {
            None
        } else {
            Some(trim(p.as_str()))
        },
        None => None,
    }
}

/// Where ffprobe is looked for next to a user-set FFmpeg: the same folder.
pub open spec fn ffprobe_next_to(ffmpeg: Seq<char>, windows: bool) -> Option<Seq<char>> {
    match parent(ffmpeg) {
        Some(d) => Some(join(d, if windows { "ffprobe.exe"@ } else { "ffprobe"@ })),
        None => None,
    }
}

/// The ffprobe path next to a user-set FFmpeg.
pub fn ffprobe_beside(ffmpeg: &str, windows: bool) -> (r: Option<String>)
    ensures
        match ffprobe_next_to(ffmpeg@, windows) {
            None => r is None,
            Some(p) => r matches Some(s) && s@ == p,
        },
{
    match path_parent(ffmpeg) {
        Some(d) => Some(path_join(d.as_str(), if windows { "ffprobe.exe" } else { "ffprobe" })),
        None => None,
    }
}

/// The text of an optional string.
pub open spec fn opt_text(o: Option<String>) -> Option<Seq<char>> {
    match o {
        Some(s) => Some(s@),
        None => None,
    }
}

/// The program found: the first `PATH` hit, in the order of the names; else
/// the first candidate path that exists.
pub open spec fn first_hit(hits: Seq<Option<Seq<char>>>, cands: Seq<Seq<char>>, present: Seq<bool>) -> Option<Seq<char>>
    decreases hits.len() + cands.len(),
{
    if hits.len() > 0 {
        match hits[0] {
            Some(p) => Some(p),
            None => first_hit(hits.skip(1), cands, present),
        }
    } else if cands.len() > 0 && present.len() > 0 {
        if present[0] {
            Some(cands[0])
        } else {
            first_hit(hits, cands.skip(1), present.skip(1))
        }
    } else {
        None
    }
}

/// Picks the program path from the `PATH` lookups of its names (`hits`) and
/// from which of the fallback paths exist (`present[i]` for `cands[i]`).
pub fn first_found(hits: &Vec<Option<String>>, cands: &Vec<String>, present: &Vec<bool>) -> (r: Option<String>)
    requires
        present@.len() == cands@.len(),
    ensures
        opt_text(r) == first_hit(hits@.map_values(|h: Option<String>| opt_text(h)), texts(cands@), present@),
{
    let ghost hv = hits@.map_values(|h: Option<String>| opt_text(h));
    let ghost cv = texts(cands@);
    let mut i: usize = 0;
    assert(hv.skip(0) =~= hv);
    while i < hits.len()
        invariant
            hv == hits@.map_values(|h: Option<String>| opt_text(h)),
            cv == texts(cands@),
            i <= hits@.len(),
            first_hit(hv.skip(i as int), cv, present@) == first_hit(hv, cv, present@),
        decreases hits@.len() - i,
    {
        assert(hv.skip(i as int)[0] == opt_text(hits@[i as int]));
        assert(hv.skip(i as int).skip(1) =~= hv.skip(i + 1));
        match &hits[i] {
            Some(p) => {
                return Some(p.clone());
            },
            None => {},
        }
        i = i + 1;
    }
    let ghost none: Seq<Option<Seq<char>>> = Seq::empty();
    assert(hv.skip(i as int) =~= none);
    let mut j: usize = 0;
    assert(cv.skip(0) =~= cv);
    assert(present@.skip(0) =~= present@);
    while j < cands.len()
        invariant
            hv == hits@.map_values(|h: Option<String>| opt_text(h)),
            none.len() == 0,
            cv == texts(cands@),
            present@.len() == cands@.len(),
            j <= cands@.len(),
            first_hit(none, cv.skip(j as int), present@.skip(j as int)) == first_hit(hv, cv, present@),
        decreases cands@.len() - j,
    {
        assert(cv.skip(j as int)[0] == cands@[j as int]@);
        assert(present@.skip(j as int)[0] == present@[j as int]);
        assert(cv.skip(j as int).skip(1) =~= cv.skip(j + 1));
        assert(present@.skip(j as int).skip(1) =~= present@.skip(j + 1));
        if present[j] {
            return Some(cands[j].clone());
        }
        j = j + 1;
    }
    None
}

/// The last component of a path, after the last `/` or `\\`.
pub open spec fn last_piece(p: Seq<char>) -> Seq<char> {
    let a = last_index(p, '/');
    let b = last_index(p, '\\');
    p.skip((if a >= b { a } else { b }) + 1)
}

/// A program name without path separators.
pub open spec fn bare_name(n: Seq<char>) -> bool {
    n.len() > 0 && !n.contains('/') && !n.contains('\\')
}

/// Whether the path `p` names the program `name`: its last component is the
/// name, up to ASCII case, possibly followed by an extension (`.exe` and the
/// like, which Windows appends).
pub open spec fn names_program(p: Seq<char>, name: Seq<char>) -> bool {
    let f = lower(last_piece(p));
    let n = lower(name);
    has_prefix(f, n) && (f.len() == n.len() || f[n.len() as int] == '.')
}

/// `which::which`: looks a program up on `PATH`. Whether it is found, and in
/// which folder, depends on the environment and the disk and is not stated;
/// for a name without separators, a path found is a file of that name in a
/// `PATH` folder (the name as given on Unix; on Windows cased as on disk and
/// possibly with a `PATHEXT` extension), as which's documentation and source
/// show. The path is given as text, any non-UTF-8 part replaced.
#[verifier::external_body]
fn which_path(name: &str) -> (r: Option<String>)
    ensures
        bare_name(name@) ==> (r matches Some(p) ==> names_program(p@, name@)),
{
    match which::which(name) {
        Ok(p) => Some(p.to_string_lossy().into_owned()),
        Err(_) => None,
    }
}

/// `std::path::Path::exists`: whether something is at `p`. Trusted for
/// nothing about the result, which depends on the disk.
#[verifier::external_body]
fn path_exists(p: &str) -> (r: bool) {
    std::path::Path::new(p).exists()
}

/// What a search for a program known by `names` may return: the pick of
/// `first_hit` for some outcome of the `PATH` lookups and of the existence
/// checks of the fallback paths.
pub open spec fn found_among(r: Option<String>, names: Seq<Seq<char>>) -> bool {
    exists|hits: Seq<Option<Seq<char>>>, present: Seq<bool>|
        hits.len() == names.len() && present.len() == search_candidates(extra_dirs(), names).len()
            && (forall|i: int| 0 <= i < hits.len() && bare_name(names[i]) ==> (#[trigger] hits[i] matches Some(h) ==> names_program(h, names[i])))
            && opt_text(r) == #[trigger] first_hit(hits, search_candidates(extra_dirs(), names), present)
}

/// Looks a program up by each of its names on `PATH`, then in the usual
/// folders that GUI apps do not see on `PATH`.
pub fn find(names: &Vec<String>) -> (r: Option<String>)
    ensures
        found_among(r, texts(names@)),
{
    let mut hits: Vec<Option<String>> = Vec::new();
    let mut i: usize = 0;
    while i < names.len()
        invariant
            i <= names@.len(),
            hits@.len() == i,
            forall|k: int| 0 <= k < i && bare_name(names@[k]@) ==> (#[trigger] hits@[k] matches Some(h) ==> names_program(h@, names@[k]@)),
        decreases names@.len() - i,
    {
        hits.push(which_path(names[i].as_str()));
        i = i + 1;
    }
    let cands = search_paths(names);
    let mut present: Vec<bool> = Vec::new();
    let mut j: usize = 0;
    while j < cands.len()
        invariant
            j <= cands@.len(),
            present@.len() == j,
        decreases cands@.len() - j,
    {
        present.push(path_exists(cands[j].as_str()));
        j = j + 1;
    }
    let r = first_found(&hits, &cands, &present);
    proof {
        let hv = hits@.map_values(|h: Option<String>| opt_text(h));
        assert(hv.len() == texts(names@).len());
        assert forall|k: int| 0 <= k < hv.len() && bare_name(texts(names@)[k]) implies (#[trigger] hv[k] matches Some(h) ==> names_program(h, texts(names@)[k])) by {
            assert(texts(names@)[k] == names@[k]@);
            assert(hv[k] == opt_text(hits@[k]));
        }
        assert(present@.len() == search_candidates(extra_dirs(), texts(names@)).len());
        assert(opt_text(r) == first_hit(hv, search_candidates(extra_dirs(), texts(names@)), present@));
    }
    r
}

fn names_of(a: &str, b: &str, c: &str, n: usize) -> (r: Vec<String>)
    requires
        1 <= n <= 3,
    ensures
        texts(r@) == seq![a@, b@, c@].take(n as int),
{
    let mut v: Vec<String> = Vec::new();
    v.push(String::from_str(a));
    if n >= 2 {
        v.push(String::from_str(b));
    }
    if n >= 3 {
        v.push(String::from_str(c));
    }
    assert(texts(v@) =~= seq![a@, b@, c@].take(n as int));
    v
}

impl Tools {
    /// Looks up FFmpeg, ffprobe and Ghostscript (`gs`, then the Windows
    /// console builds `gswin64c` and `gswin32c`).
    pub fn detect() -> (t: Tools)
        ensures
            found_among(t.ffmpeg, seq!["ffmpeg"@]),
            found_among(t.ffprobe, seq!["ffprobe"@]),
            found_among(t.ghostscript, seq!["gs"@, "gswin64c"@, "gswin32c"@]),
    {
        let f = names_of("ffmpeg", "", "", 1);
        let p = names_of("ffprobe", "", "", 1);
        let g = names_of("gs", "gswin64c", "gswin32c", 3);
        proof {
            assert(seq!["ffmpeg"@, ""@, ""@].take(1) =~= seq!["ffmpeg"@]);
            assert(seq!["ffprobe"@, ""@, ""@].take(1) =~= seq!["ffprobe"@]);
            assert(seq!["gs"@, "gswin64c"@, "gswin32c"@].take(3) =~= seq!["gs"@, "gswin64c"@, "gswin32c"@]);
        }
        Tools { ffmpeg: find(&f), ffprobe: find(&p), ghostscript: find(&g) }
    }
}

/// The detected programs, with the user's FFmpeg and Ghostscript paths taken
/// instead where they are set (not blank) and exist; ffprobe is then taken
/// from next to the user's FFmpeg where one is there. `windows` selects the
/// `.exe` name of ffprobe.
pub fn tools_with_overrides(ffmpeg_path: &Option<String>, gs_path: &Option<String>, windows: bool) -> (t: Tools)
    ensures
        opt_text(t.ffmpeg) == override_of(*ffmpeg_path) || found_among(t.ffmpeg, seq!["ffmpeg"@]),
        override_of(*ffmpeg_path) is None ==> found_among(t.ffmpeg, seq!["ffmpeg"@]),
        found_among(t.ffprobe, seq!["ffprobe"@]) || (override_of(*ffmpeg_path) matches Some(p)
            && opt_text(t.ffprobe) == ffprobe_next_to(p, windows)),
        override_of(*ffmpeg_path) is None ==> found_among(t.ffprobe, seq!["ffprobe"@]),
        opt_text(t.ghostscript) == override_of(*gs_path) || found_among(
            t.ghostscript,
            seq!["gs"@, "gswin64c"@, "gswin32c"@],
        ),
        override_of(*gs_path) is None ==> found_among(t.ghostscript, seq!["gs"@, "gswin64c"@, "gswin32c"@]),
{
    let mut t = Tools::detect();
    if let Some(p) = override_path(ffmpeg_path) {
        if path_exists(p.as_str()) {
            let probe = ffprobe_beside(p.as_str(), windows);
            t.ffmpeg = Some(p);
            if let Some(pr) = probe {
                if path_exists(pr.as_str()) {
                    t.ffprobe = Some(pr);
                }
            }
        }
    }
    if let Some(p) = override_path(gs_path) {
        if path_exists(p.as_str()) {
            t.ghostscript = Some(p);
        }
    }
    t
}

} // verus!
