//! Self-service tool installation: where downloaded tools live, which FFmpeg
//! build fits the platform, how a build is picked from the download index when
//! the redirect fails, and which archive entries are the wanted programs.
use vstd::prelude::*;
use vstd::string::*;
use crate::path::{file_name, join, path_file_name, path_join};
use crate::probe::{parsed_u64, parse_u64};
use crate::text::{
    chars_of, has_prefix, has_suffix, matches_at, string_of_range, text_eq, texts,
};

verus! {

/// Installation phases reported to the UI.
#[derive(Debug, Clone, Copy, PartialEq, Eq, Structural)]
pub enum Phase {
    Downloading,
    Extracting,
    Installing,
    Done,
    Error,
}

/// Where Feather keeps tools it downloaded itself: `bin` in the app's data folder.
pub fn tools_dir(app_data: &str) -> (r: String)
    ensures
        r@ == join(app_data@, "bin"@),
{
    path_join(app_data, "bin")
}

/// The FFmpeg downloads for an OS and CPU architecture (as `std::env::consts`
/// names them): (binary name, download URL) pairs; `None` where there is no build.
pub open spec fn ffmpeg_downloads(os: Seq<char>, arch: Seq<char>) -> Option<Seq<(Seq<char>, Seq<char>)>> {
    let base = "https://ffmpeg.martin-riedl.de/redirect/latest/"@;
    let pair = |p: Seq<char>|
        seq![
            ("ffmpeg"@, base + p + "/release/ffmpeg.zip"@),
            ("ffprobe"@, base + p + "/release/ffprobe.zip"@),
        ];
    if os == "macos"@ && arch == "aarch64"@ {
        Some(pair("macos/arm64"@))
    } else if os == "macos"@ {
        Some(pair("macos/amd64"@))
    } else if os == "linux"@ && arch == "x86_64"@ {
        Some(pair("linux/amd64"@))
    } else if os == "linux"@ && arch == "aarch64"@ {
        Some(pair("linux/arm64"@))
    } else if os == "windows"@ {
        Some(seq![("bundle"@, "https://github.com/BtbN/FFmpeg-Builds/releases/latest/download/ffmpeg-master-latest-win64-gpl.zip"@)])
    } else {
        None
    }
}

/// The view of a download list.
pub open spec fn pairs_view(v: Seq<(String, String)>) -> Seq<(Seq<char>, Seq<char>)> {
    v.map_values(|p: (String, String)| (p.0@, p.1@))
}

fn riedl_pair(platform: &str) -> (r: Vec<(String, String)>)
    ensures
        pairs_view(r@) == seq![
            ("ffmpeg"@, "https://ffmpeg.martin-riedl.de/redirect/latest/"@ + platform@ + "/release/ffmpeg.zip"@),
            ("ffprobe"@, "https://ffmpeg.martin-riedl.de/redirect/latest/"@ + platform@ + "/release/ffprobe.zip"@),
        ],
{
    let mut a = String::from_str("https://ffmpeg.martin-riedl.de/redirect/latest/");
    a.append(platform);
    let mut b = String::from_str(a.as_str());
    a.append("/release/ffmpeg.zip");
    b.append("/release/ffprobe.zip");
    let mut v: Vec<(String, String)> = Vec::new();
    v.push((String::from_str("ffmpeg"), a));
    v.push((String::from_str("ffprobe"), b));
    assert(pairs_view(v@) =~= seq![
        ("ffmpeg"@, "https://ffmpeg.martin-riedl.de/redirect/latest/"@ + platform@ + "/release/ffmpeg.zip"@),
        ("ffprobe"@, "https://ffmpeg.martin-riedl.de/redirect/latest/"@ + platform@ + "/release/ffprobe.zip"@),
    ]);
    v
}

/// The FFmpeg downloads for an OS and architecture, or the error saying there is none.
pub fn ffmpeg_urls(os: &str, arch: &str) -> (r: Result<Vec<(String, String)>, String>)
    ensures
        match ffmpeg_downloads(os@, arch@) {
            Some(d) => r matches Ok(v) && pairs_view(v@) == d,
            None => r matches Err(e) && e@ == "no FFmpeg download available for "@ + os@ + "/"@ + arch@,
        },
{
    if text_eq(os, "macos") && text_eq(arch, "aarch64") {
        Ok(riedl_pair("macos/arm64"))
    } else if text_eq(os, "macos") {
        Ok(riedl_pair("macos/amd64"))
    } else if text_eq(os, "linux") && text_eq(arch, "x86_64") {
        Ok(riedl_pair("linux/amd64"))
    } else if text_eq(os, "linux") && text_eq(arch, "aarch64") {
        Ok(riedl_pair("linux/arm64"))
    } else if text_eq(os, "windows") {
        let mut v: Vec<(String, String)> = Vec::new();
        v.push((
            String::from_str("bundle"),
            String::from_str("https://github.com/BtbN/FFmpeg-Builds/releases/latest/download/ffmpeg-master-latest-win64-gpl.zip"),
        ));
        assert(pairs_view(v@) =~= seq![("bundle"@, "https://github.com/BtbN/FFmpeg-Builds/releases/latest/download/ffmpeg-master-latest-win64-gpl.zip"@)]);
        Ok(v)
    } else {
        let mut e = String::from_str("no FFmpeg download available for ");
        e.append(os);
        e.append("/");
        e.append(arch);
        Err(e)
    }
}

/// The position of the first occurrence of `pat` in `s`, if any.
pub open spec fn find_pat(s: Seq<char>, pat: Seq<char>) -> Option<int>
    decreases s.len(),
{
    if s.len() < pat.len() {
        None
    } else if s.take(pat.len() as int) == pat {
        Some(0)
    } else if s.len() == 0 {
        None
    } else {
        match find_pat(s.skip(1), pat) {
            Some(k) => Some(k + 1),
            None => None,
        }
    }
}

pub proof fn lemma_find_pat_bounds(s: Seq<char>, pat: Seq<char>)
    ensures
        find_pat(s, pat) matches Some(k) ==> 0 <= k && k + pat.len() <= s.len() && s.subrange(
            k,
            k + pat.len(),
        ) == pat,
    decreases s.len(),
{
    if s.len() >= pat.len() && s.take(pat.len() as int) != pat && s.len() > 0 {
        lemma_find_pat_bounds(s.skip(1), pat);
        if let Some(k) = find_pat(s.skip(1), pat) {
            assert(s.subrange(k + 1, k + 1 + pat.len()) =~= s.skip(1).subrange(k, k + pat.len()));
        }
    } else if s.len() >= pat.len() && s.take(pat.len() as int) == pat {
        assert(s.subrange(0, pat.len() as int) =~= s.take(pat.len() as int));
    }
}

/// The pieces of `s` between occurrences of the non-empty `pat`, as `str::split` gives them.
pub open spec fn split_pat(s: Seq<char>, pat: Seq<char>) -> Seq<Seq<char>>
    decreases s.len(),
{
    if pat.len() == 0 {
        seq![s]
    } else {
        match find_pat(s, pat) {
            Some(k) => {
                proof {
                    lemma_find_pat_bounds(s, pat);
                }
                seq![s.take(k)] + split_pat(s.skip(k + pat.len()), pat)
            },
            None => seq![s],
        }
    }
}

/// The first occurrence of `pat` in `v` at or after `from`.
fn find_from(v: &Vec<char>, from: usize, pat: &Vec<char>) -> (r: Option<usize>)
    requires
        from <= v@.len(),
    ensures
        match find_pat(v@.skip(from as int), pat@) {
            Some(k) => r == Some((from + k) as usize),
            None => r is None,
        },
{
    let n = v.len();
    let m = pat.len();
    let mut i = from;
    while i < n || (i == n && m == 0)
        invariant
            from <= i <= n,
            n == v@.len(),
            m == pat@.len(),
            find_pat(v@.skip(from as int), pat@) == match find_pat(v@.skip(i as int), pat@) {
                Some(k) => Some(k + (i - from)),
                None => None::<int>,
            },
        decreases n - i + 1,
    {
        let ghost rest = v@.skip(i as int);
        if matches_at(v, i, pat) {
            assert(rest.take(m as int) =~= v@.subrange(i as int, i + m));
            return Some(i);
        }
        proof {
            if rest.len() >= m {
                assert(rest.take(m as int) =~= v@.subrange(i as int, i + m));
            }
        }
        if i == n {
            return None;
        }
        if n - i < m {
            assert(rest.len() < m);
            return None;
        }
        assert(rest.skip(1) =~= v@.skip(i + 1));
        i = i + 1;
    }
    let ghost rest = v@.skip(i as int);
    assert(rest.len() == 0);
    assert(m > 0);
    None
}

/// Splits `s` at every occurrence of the non-empty `pat`.
pub fn split_by(s: &str, pat: &str) -> (r: Vec<String>)
    requires
        pat@.len() > 0,
    ensures
        texts(r@) == split_pat(s@, pat@),
{
    let v = chars_of(s);
    let p = chars_of(pat);
    let n = v.len();
    let m = p.len();
    let mut out: Vec<String> = Vec::new();
    let mut i: usize = 0;
    assert(v@.skip(0) =~= v@);
    assert(texts(out@) + split_pat(v@, p@) =~= split_pat(v@, p@));
    loop
        invariant
            v@ == s@,
            p@ == pat@,
            n == v@.len(),
            m == p@.len(),
            m > 0,
            i <= n,
            texts(out@) + split_pat(v@.skip(i as int), p@) == split_pat(v@, p@),
        decreases n - i + 1,
    {
        let ghost rest = v@.skip(i as int);
        let ghost o0 = texts(out@);
        match find_from(&v, i, &p) {
            Some(k) => {
                proof {
                    lemma_find_pat_bounds(rest, p@);
                }
                let ghost kk = (k - i) as int;
                assert(rest.take(kk) =~= v@.subrange(i as int, k as int));
                assert(rest.skip(kk + m) =~= v@.skip(k + m));
                out.push(string_of_range(&v, i, k));
                assert(texts(out@) =~= o0.push(v@.subrange(i as int, k as int)));
                i = k + m;
            },
            None => {
                assert(rest =~= v@.subrange(i as int, n as int));
                out.push(string_of_range(&v, i, n));
                assert(texts(out@) =~= o0.push(rest));
                return out;
            },
        }
    }
}


/// The target of an `href="…` fragment: the text up to the closing quote.
pub open spec fn href_of(seg: Seq<char>) -> Seq<char> {
    seg.take(crate::probe::first_index(seg, '"'))
}

/// The build id in a download link: the path component right after `needle`.
pub open spec fn build_id(href: Seq<char>, needle: Seq<char>) -> Seq<char> {
    let rest = href.skip(needle.len() as int);
    rest.take(crate::probe::first_index(rest, '/'))
}

/// The build's timestamp: the part of its id before the first `_`, 0 when unreadable.
pub open spec fn build_ts(id: Seq<char>) -> u64 {
    match parsed_u64(id.take(crate::probe::first_index(id, '_'))) {
        Some(t) => t,
        None => 0,
    }
}

/// Release builds (`<ts>_9.0`) rank above nightly ones (`<ts>_N-…`), then newer
/// above older; the sum wraps at 64 bits.
pub open spec fn build_score(id: Seq<char>) -> u64 {
    let bonus: int = if find_pat(id, "_N-"@) is None { 0x100_0000_0000 } else { 0 };
    ((build_ts(id) + bonus) % 0x1_0000_0000_0000_0000) as u64
}

/// The best build link among index fragments, scanning left to right and keeping
/// the first of equal scores.
pub open spec fn best_link(
    segs: Seq<Seq<char>>,
    needle: Seq<char>,
    suffix: Seq<char>,
    best: Option<(u64, Seq<char>)>,
) -> Option<(u64, Seq<char>)>
    decreases segs.len(),
{
    if segs.len() == 0 {
        best
    } else {
        let href = href_of(segs[0]);
        let score = build_score(build_id(href, needle));
        let next = if has_prefix(href, needle) && has_suffix(href, suffix) && (match best {
            Some(b) => score > b.0,
            None => true,
        }) {
            Some((score, "https://ffmpeg.martin-riedl.de"@ + href))
        } else {
            best
        };
        best_link(segs.skip(1), needle, suffix, next)
    }
}

/// The newest release build of `file` for `os`/`arch` linked from the download
/// index page `html`, if any.
pub open spec fn picked_build(html: Seq<char>, os: Seq<char>, arch: Seq<char>, file: Seq<char>) -> Option<Seq<char>> {
    match best_link(
        split_pat(html, "href=\""@).skip(1),
        "/download/"@ + os + "/"@ + arch + "/"@,
        "/"@ + file,
        None,
    ) {
        Some(b) => Some(b.1),
        None => None,
    }
}

fn prefix_until(s: &str, c: char) -> (r: String)
    ensures
        r@ == s@.take(crate::probe::first_index(s@, c)),
{
    let v = chars_of(s);
    let mut k: usize = 0;
    while k < v.len() && v[k] != c
        invariant
            v@ == s@,
            k <= v@.len(),
            forall|j: int| 0 <= j < k ==> v@[j] != c,
        decreases v@.len() - k,
    {
        k = k + 1;
    }
    proof {
        crate::run::lemma_first_index(s@, c);
        lemma_first_index_eq(s@, c, k as int);
    }
    string_of_range(&v, 0, k)
}

proof fn lemma_first_index_eq(s: Seq<char>, c: char, k: int)
    requires
        0 <= k <= s.len(),
        forall|j: int| 0 <= j < k ==> s[j] != c,
        k < s.len() ==> s[k] == c,
    ensures
        crate::probe::first_index(s, c) == k,
    decreases k,
{
    if k > 0 {
        assert forall|j: int| 0 <= j < k - 1 implies s.skip(1)[j] != c by {
            assert(s.skip(1)[j] == s[j + 1]);
        }
        lemma_first_index_eq(s.skip(1), c, k - 1);
    }
}

fn contains_pat(s: &str, pat: &str) -> (r: bool)
    ensures
        r == (find_pat(s@, pat@) is Some),
{
    let v = chars_of(s);
    let p = chars_of(pat);
    assert(v@.skip(0) =~= v@);
    find_from(&v, 0, &p).is_some()
}

fn score_of(id: &str) -> (r: u64)
    ensures
        r == build_score(id@),
{
    let head = prefix_until(id, '_');
    let ts = match parse_u64(head.as_str()) {
        Some(t) => t,
        None => 0,
    };
    proof {
        reveal_strlit("_N-");
    }
    let bonus: u64 = if contains_pat(id, "_N-") { 0 } else { 0x100_0000_0000 };
    ts.wrapping_add(bonus)
}

/// Picks the newest release build of `file` for `os`/`arch` from the download
/// index page (used when the "latest" redirect is unavailable).
pub fn best_build_url(html: &str, os: &str, arch: &str, file: &str) -> (r: Option<String>)
    ensures
        match picked_build(html@, os@, arch@, file@) {
            Some(u) => r matches Some(x) && x@ == u,
            None => r is None,
        },
{
    proof {
        reveal_strlit("href=\"");
    }
    let segs = split_by(html, "href=\"");
    let mut needle = String::from_str("/download/");
    needle.append(os);
    needle.append("/");
    needle.append(arch);
    needle.append("/");
    let mut suffix = String::from_str("/");
    suffix.append(file);
    let ghost all = texts(segs@).skip(1);
    let mut best: Option<(u64, String)> = None;
    let mut i: usize = 1;
    let ghost target = best_link(all, needle@, suffix@, None);
    assert(all.skip(0) =~= all);
    while i < segs.len()
        invariant
            1 <= i <= segs@.len(),
            segs@.len() >= 1,
            all == texts(segs@).skip(1),
            best_link(all.skip(i - 1), needle@, suffix@, match best {
                Some(b) => Some((b.0, b.1@)),
                None => None,
            }) == target,
        decreases segs@.len() - i,
    {
        let seg = segs[i].as_str();
        let href = prefix_until(seg, '"');
        let ghost rest = all.skip(i - 1);
        assert(rest[0] == seg@);
        assert(rest.skip(1) =~= all.skip(i as int));
        if crate::text::starts_with(href.as_str(), needle.as_str())
            && crate::text::ends_with(href.as_str(), suffix.as_str()) {
            let hv = chars_of(href.as_str());
            let nl = needle.unicode_len();
            let ghost after = href@.skip(nl as int);
            let rest_s = string_of_range(&hv, nl, hv.len());
            assert(rest_s@ =~= after);
            let id = prefix_until(rest_s.as_str(), '/');
            let score = score_of(id.as_str());
            let better = match &best {
                Some(b) => score > b.0,
                None => true,
            };
            if better {
                let mut url = String::from_str("https://ffmpeg.martin-riedl.de");
                url.append(href.as_str());
                best = Some((score, url));
            }
        }
        i = i + 1;
    }
    assert(all.skip(i - 1) =~= Seq::<Seq<char>>::empty());
    match best {
        Some((_, u)) => Some(u),
        None => None,
    }
}

/// The OS, architecture and file name in a `…/latest/<os>/<arch>/release/<file>`
/// download URL (the 4th-last, 3rd-last and last path pieces).
pub open spec fn url_parts(url: Seq<char>) -> (Seq<char>, Seq<char>, Seq<char>) {
    let parts = split_pat(url, "/"@);
    let n = parts.len();
    (parts[n - 4], parts[n - 3], parts[n - 1])
}

/// The OS, architecture and file name of a download URL.
pub fn riedl_parts(url: &str) -> (r: (String, String, String))
    requires
        split_pat(url@, "/"@).len() >= 4,
    ensures
        (r.0@, r.1@, r.2@) == url_parts(url@),
{
    proof {
        reveal_strlit("/");
    }
    let parts = split_by(url, "/");
    let n = parts.len();
    assert(texts(parts@)[n - 4] == parts@[n - 4]@);
    assert(texts(parts@)[n - 3] == parts@[n - 3]@);
    assert(texts(parts@)[n - 1] == parts@[n - 1]@);
    (parts[n - 4].clone(), parts[n - 3].clone(), parts[n - 1].clone())
}

/// The program name an archive entry holds, for entries that are wanted
/// programs: the entry's file name, accepted when it equals a wanted name once
/// every trailing `.exe` is removed.
pub open spec fn wanted_entry(entry: Seq<char>, wanted: Seq<Seq<char>>) -> Option<Seq<char>> {
    let name = match file_name(entry) {
        Some(n) => n,
        None => Seq::empty(),
    };
    if wanted.contains(strip_exe(name)) { Some(name) } else { None }
}

/// `s` with every trailing `.exe` removed (`trim_end_matches(".exe")`).
pub open spec fn strip_exe(s: Seq<char>) -> Seq<char>
    decreases s.len(),
{
    if has_suffix(s, ".exe"@) && s.len() >= 4 {
        strip_exe(s.take(s.len() - 4))
    } else {
        s
    }
}

fn strip_exe_exec(s: &str) -> (r: String)
    ensures
        r@ == strip_exe(s@),
{
    let v = chars_of(s);
    let mut end = v.len();
    let suffix = chars_of(".exe");
    proof {
        reveal_strlit(".exe");
    }
    assert(v@.take(end as int) =~= v@);
    while end >= 4 && matches_at(&v, end - 4, &suffix)
        invariant
            end <= v@.len(),
            suffix@ == ".exe"@,
            suffix@.len() == 4,
            strip_exe(v@.take(end as int)) == strip_exe(s@),
            v@ == s@,
        decreases end,
    {
        let ghost t = v@.take(end as int);
        assert(t.skip(t.len() - 4) =~= v@.subrange(end - 4, end as int));
        assert(t.take(t.len() - 4) =~= v@.take(end - 4));
        end = end - 4;
    }
    proof {
        let t = v@.take(end as int);
        if end >= 4 {
            assert(t.skip(t.len() - 4) =~= v@.subrange(end - 4, end as int));
        }
    }
    string_of_range(&v, 0, end)
}

/// Whether an archive entry is one of the wanted programs; gives its file name.
pub fn wanted_binary(entry: &str, wanted: &Vec<String>) -> (r: Option<String>)
    ensures
        match wanted_entry(entry@, texts(wanted@)) {
            Some(n) => r matches Some(x) && x@ == n,
            None => r is None,
        },
{
    let name = match path_file_name(entry) {
        Some(n) => n,
        None => String::new(),
    };
    let stem = strip_exe_exec(name.as_str());
    assert(name@ == match file_name(entry@) {
        Some(n) => n,
        None => Seq::<char>::empty(),
    });
    let mut i: usize = 0;
    while i < wanted.len()
        invariant
            i <= wanted@.len(),
            stem@ == strip_exe(name@),
            name@ == match file_name(entry@) {
                Some(n) => n,
                None => Seq::<char>::empty(),
            },
            forall|j: int| 0 <= j < i ==> wanted@[j]@ != stem@,
        decreases wanted@.len() - i,
    {
        if text_eq(wanted[i].as_str(), stem.as_str()) {
            assert(texts(wanted@)[i as int] == stem@);
            assert(texts(wanted@).contains(stem@));
            return Some(name);
        }
        i = i + 1;
    }
    assert(!texts(wanted@).contains(stem@)) by {
        if texts(wanted@).contains(stem@) {
            let j = choose|j: int| 0 <= j < texts(wanted@).len() && texts(wanted@)[j] == stem@;
            assert(wanted@[j]@ == stem@);
        }
    }
    None
}

/// Whether a download URL is a Martin Riedl build page, whose real archive
/// link must be looked up first.
pub fn needs_build_lookup(url: &str) -> (r: bool)
    ensures
        r == (find_pat(url@, "martin-riedl"@) is Some),
{
    contains_pat(url, "martin-riedl")
}

/// The hidden file that an archive is downloaded to before it is unpacked.
pub fn part_file_name(name: &str) -> (r: String)
    ensures
        r@ == "."@ + name@ + ".zip.part"@,
{
    let a = crate::text::cat(".", name);
    crate::text::cat(a.as_str(), ".zip.part")
}

/// The operating systems that the Ghostscript installer tells apart.
#[derive(Debug, Clone, Copy, PartialEq, Eq, Structural)]
pub enum HostOs {
    Windows,
    MacOs,
    Linux,
    Other,
}

/// Which package managers were found on the machine.
#[derive(Debug, Clone, Copy)]
pub struct PackageManagers {
    pub winget: bool,
    /// Homebrew, on `PATH` or in one of its usual folders.
    pub brew: bool,
    pub apt_get: bool,
}

/// The program and arguments that install Ghostscript, or the error telling
/// what to do instead: winget on Windows; Homebrew elsewhere; on Linux without
/// Homebrew, apt-get through pkexec.
pub open spec fn gs_installer_for(os: HostOs, pm: PackageManagers) -> Result<(Seq<char>, Seq<Seq<char>>), Seq<char>> {
    if os == HostOs::Windows && pm.winget {
        Ok((
            "winget"@,
            seq![
                "install"@,
                "-e"@,
                "--id"@,
                "ArtifexSoftware.GhostScript"@,
                "--accept-source-agreements"@,
                "--accept-package-agreements"@,
            ],
        ))
    } else if os != HostOs::Windows && pm.brew {
        Ok(("brew"@, seq!["install"@, "ghostscript"@]))
    } else if os == HostOs::Linux && pm.apt_get {
        Ok(("pkexec"@, seq!["apt-get"@, "install"@, "-y"@, "ghostscript"@]))
    } else if os == HostOs::MacOs {
        Err(
            "Homebrew not found. Install Homebrew (https://brew.sh) and try again, or download Ghostscript from https://www.ghostscript.com/releases/gsdnld.html"@,
        )
    } else {
        Err("No supported package manager found. Install Ghostscript from https://www.ghostscript.com/releases/gsdnld.html"@)
    }
}

/// Chooses how to install Ghostscript on this machine.
pub fn gs_installer(os: HostOs, pm: &PackageManagers) -> (r: Result<(String, Vec<String>), String>)
    ensures
        match gs_installer_for(os, *pm) {
            Ok((prog, args)) => r matches Ok((p, a)) && p@ == prog && texts(a@) == args,
            Err(e) => r matches Err(m) && m@ == e,
        },
{
    let mut a: Vec<String> = Vec::new();
    if os == HostOs::Windows && pm.winget {
        crate::text::push_lit(&mut a, "install");
        crate::text::push_lit(&mut a, "-e");
        crate::text::push_lit(&mut a, "--id");
        crate::text::push_lit(&mut a, "ArtifexSoftware.GhostScript");
        crate::text::push_lit(&mut a, "--accept-source-agreements");
        crate::text::push_lit(&mut a, "--accept-package-agreements");
        assert(texts(a@) =~= seq![
            "install"@,
            "-e"@,
            "--id"@,
            "ArtifexSoftware.GhostScript"@,
            "--accept-source-agreements"@,
            "--accept-package-agreements"@,
        ]);
        Ok((String::from_str("winget"), a))
    } else if os != HostOs::Windows && pm.brew {
        crate::text::push_lit(&mut a, "install");
        crate::text::push_lit(&mut a, "ghostscript");
        assert(texts(a@) =~= seq!["install"@, "ghostscript"@]);
        Ok((String::from_str("brew"), a))
    } else if os == HostOs::Linux && pm.apt_get {
        crate::text::push_lit(&mut a, "apt-get");
        crate::text::push_lit(&mut a, "install");
        crate::text::push_lit(&mut a, "-y");
        crate::text::push_lit(&mut a, "ghostscript");
        assert(texts(a@) =~= seq!["apt-get"@, "install"@, "-y"@, "ghostscript"@]);
        Ok((String::from_str("pkexec"), a))
    } else if os == HostOs::MacOs {
        Err(
            String::from_str(
                "Homebrew not found. Install Homebrew (https://brew.sh) and try again, or download Ghostscript from https://www.ghostscript.com/releases/gsdnld.html",
            ),
        )
    } else {
        Err(
            String::from_str(
                "No supported package manager found. Install Ghostscript from https://www.ghostscript.com/releases/gsdnld.html",
            ),
        )
    }
}

/// The words of a command line joined by single spaces.
pub open spec fn joined_words(words: Seq<Seq<char>>) -> Seq<char>
    decreases words.len(),
{
    if words.len() == 0 {
        Seq::empty()
    } else if words.len() == 1 {
        words[0]
    } else {
        joined_words(words.drop_last()) + " "@ + words.last()
    }
}

/// The progress message shown while the package manager runs.
pub fn running_message(prog: &str, args: &Vec<String>) -> (r: String)
    ensures
        r@ == "Running "@ + prog@ + " "@ + joined_words(texts(args@)) + "\u{2026}"@,
{
    let ghost w = texts(args@);
    let mut j = String::new();
    let mut i: usize = 0;
    while i < args.len()
        invariant
            w == texts(args@),
            i <= args@.len(),
            j@ == joined_words(w.take(i as int)),
        decreases args@.len() - i,
    {
        proof {
            assert(w.take(i + 1).drop_last() =~= w.take(i as int));
            assert(w.take(i + 1).last() == args@[i as int]@);
        }
        if i > 0 {
            j = crate::text::cat(j.as_str(), " ");
        } else {
            assert(w.take(1) =~= seq![w[0]]);
        }
        j = crate::text::cat(j.as_str(), args[i].as_str());
        i = i + 1;
    }
    assert(w.take(args@.len() as int) =~= w);
    let a = crate::text::cat("Running ", prog);
    let b = crate::text::cat(a.as_str(), " ");
    let c = crate::text::cat(b.as_str(), j.as_str());
    crate::text::cat(c.as_str(), "\u{2026}")
}

/// The error when the package manager fails: its name and its last line.
pub fn installer_failure(prog: &str, last_line: &str) -> (r: String)
    ensures
        r@ == prog@ + " failed: "@ + last_line@,
{
    let a = crate::text::cat(prog, " failed: ");
    crate::text::cat(a.as_str(), last_line)
}

/// How many entries `zip::ZipArchive` finds in an archive; `None` where it
/// cannot read the archive.
pub uninterp spec fn zip_count_of(archive: Seq<u8>) -> Option<nat>;

/// `zip::ZipArchive::new(..).len()` on an archive held in memory. Trusted: the
/// outcome is named, as a function of the bytes; the error text is the crate's.
#[verifier::external_body]
fn zip_count(archive: &Vec<u8>) -> (r: Result<usize, String>)
    ensures
        match r {
            Ok(n) => zip_count_of(archive@) == Some(n as nat),
            Err(_) => zip_count_of(archive@) is None,
        },
{
    let z = zip::ZipArchive::new(std::io::Cursor::new(archive.as_slice())).map_err(|e| e.to_string())?;
    Ok(z.len())
}

/// The name of entry `i` of an archive and whether it is a folder, as
/// `zip::ZipArchive::by_index` reads them; `None` where they cannot be read.
pub uninterp spec fn zip_entry_of(archive: Seq<u8>, i: int) -> Option<(Seq<char>, bool)>;

/// `zip::ZipArchive::by_index(i)`, its `name()` and `is_dir()`. Trusted: the
/// outcome is named, as a function of the bytes and the index.
#[verifier::external_body]
fn zip_entry(archive: &Vec<u8>, i: usize) -> (r: Result<(String, bool), String>)
    ensures
        match r {
            Ok((name, dir)) => zip_entry_of(archive@, i as int) == Some((name@, dir)),
            Err(_) => zip_entry_of(archive@, i as int) is None,
        },
{
    let mut z = zip::ZipArchive::new(std::io::Cursor::new(archive.as_slice())).map_err(|e| e.to_string())?;
    let f = z.by_index(i).map_err(|e| e.to_string())?;
    let name = f.name().map_err(|e| e.to_string())?.into_owned();
    Ok((name, f.is_dir()))
}

/// The unpacked bytes of entry `i` of an archive, as `zip::ZipArchive` reads
/// them; `None` where they cannot be read.
pub uninterp spec fn zip_data_of(archive: Seq<u8>, i: int) -> Option<Seq<u8>>;

/// `zip::ZipArchive::by_index(i)` read to its end. Trusted: the outcome is
/// named, as a function of the bytes and the index.
#[verifier::external_body]
fn zip_data(archive: &Vec<u8>, i: usize) -> (r: Result<Vec<u8>, String>)
    ensures
        match r {
            Ok(d) => zip_data_of(archive@, i as int) == Some(d@),
            Err(_) => zip_data_of(archive@, i as int) is None,
        },
{
    let mut z = zip::ZipArchive::new(std::io::Cursor::new(archive.as_slice())).map_err(|e| e.to_string())?;
    let mut f = z.by_index(i).map_err(|e| e.to_string())?;
    let mut data: Vec<u8> = Vec::new();
    std::io::Read::read_to_end(&mut f, &mut data).map_err(|e| e.to_string())?;
    Ok(data)
}

/// The wanted programs among the archive entries from `i` on, in order: (file
/// name, bytes) of each file entry whose name is wanted; `None` where an entry
/// that is looked at cannot be read.
pub open spec fn unzip_from(archive: Seq<u8>, wanted: Seq<Seq<char>>, count: nat, i: nat) -> Option<Seq<(Seq<char>, Seq<u8>)>>
    decreases count - i,
{
    if i >= count {
        Some(Seq::empty())
    } else {
        match zip_entry_of(archive, i as int) {
            None => None,
            Some((name, dir)) => if dir {
                unzip_from(archive, wanted, count, i + 1)
            } else {
                match wanted_entry(name, wanted) {
                    None => unzip_from(archive, wanted, count, i + 1),
                    Some(n) => match zip_data_of(archive, i as int) {
                        None => None,
                        Some(d) => match unzip_from(archive, wanted, count, i + 1) {
                            None => None,
                            Some(rest) => Some(seq![(n, d)] + rest),
                        },
                    },
                }
            },
        }
    }
}

/// The wanted programs in an archive, in archive order.
pub open spec fn unzipped(archive: Seq<u8>, wanted: Seq<Seq<char>>) -> Option<Seq<(Seq<char>, Seq<u8>)>> {
    match zip_count_of(archive) {
        None => None,
        Some(c) => unzip_from(archive, wanted, c, 0),
    }
}

/// The views of extracted files.
pub open spec fn files_view(v: Seq<(String, Vec<u8>)>) -> Seq<(Seq<char>, Seq<u8>)> {
    v.map_values(|f: (String, Vec<u8>)| (f.0@, f.1@))
}

/// Unpacks the wanted programs (by name, `.exe` ignored) from an archive held
/// in memory: (file name, bytes) of each, in archive order.
pub fn unzip_wanted(archive: &Vec<u8>, wanted: &Vec<String>) -> (r: Result<Vec<(String, Vec<u8>)>, String>)
    ensures
        match r {
            Ok(files) => unzipped(archive@, texts(wanted@)) == Some(files_view(files@)),
            Err(_) => unzipped(archive@, texts(wanted@)) is None,
        },
{
    let count = zip_count(archive)?;
    let ghost w = texts(wanted@);
    let mut out: Vec<(String, Vec<u8>)> = Vec::new();
    let mut i: usize = 0;
    while i < count
        invariant
            w == texts(wanted@),
            i <= count,
            zip_count_of(archive@) == Some(count as nat),
            unzip_from(archive@, w, count as nat, 0) == match unzip_from(archive@, w, count as nat, i as nat) {
                None => None,
                Some(rest) => Some(files_view(out@) + rest),
            },
        decreases count - i,
    {
        let ghost before = files_view(out@);
        let (name, dir) = zip_entry(archive, i)?;
        if !dir {
            if let Some(n) = wanted_binary(name.as_str(), wanted) {
                let d = zip_data(archive, i)?;
                out.push((n, d));
                proof {
                    assert(files_view(out@) =~= before + seq![(out@.last().0@, out@.last().1@)]);
                    match unzip_from(archive@, w, count as nat, (i + 1) as nat) {
                        None => {},
                        Some(rest) => {
                            assert(before + (seq![(out@.last().0@, out@.last().1@)] + rest) =~= files_view(out@) + rest);
                        },
                    }
                }
            }
        }
        i = i + 1;
    }
    proof {
        assert(files_view(out@) + Seq::<(Seq<char>, Seq<u8>)>::empty() =~= files_view(out@));
    }
    Ok(out)
}

} // verus!
