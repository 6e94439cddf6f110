//! Where an output goes and what it is called: the output folder, the templated
//! file name, collision-free candidates, and the temporary file beside it.
use vstd::prelude::*;
use vstd::string::*;
use crate::gif::dims;
use crate::path::{
    extension, file_stem, is_sep, join, lemma_join_lower, lemma_lower_concat, lemma_lower_first_sep,
    lemma_lower_fixed, lower, parent, path_extension, path_file_stem, path_join, path_parent, to_lower,
};
use crate::probe::MediaInfo;
use crate::settings::{OutputLocation, OutputSettings, Quality};
use crate::text::{
    cat, decimal, fmt_hex_padded, fmt_u64, hex_padded, is_blank, lemma_decimal_injective,
    lemma_decimal_shape, replace, replace_all, sanitize, texts,
    sanitized, trim, trimmed,
};

verus! {

/// The label of a quality preset, as used in templates.
pub open spec fn quality_name(q: Quality) -> Seq<char> {
    match q {
        Quality::Highest => "highest"@,
        Quality::High => "high"@,
        Quality::Good => "good"@,
        Quality::Medium => "medium"@,
        Quality::Acceptable => "acceptable"@,
    }
}

/// The label of a quality preset, as used in templates.
pub fn quality_label(q: Quality) -> (r: &'static str)
    ensures
        r@ == quality_name(q),
{
    match q {
        Quality::Highest => "highest",
        Quality::High => "high",
        Quality::Good => "good",
        Quality::Medium => "medium",
        Quality::Acceptable => "acceptable",
    }
}

/// Distinct presets have distinct labels.
pub proof fn law_quality_labels_distinct(a: Quality, b: Quality)
    requires
        a != b,
    ensures
        quality_name(a) != quality_name(b),
{
    reveal_strlit("highest");
    reveal_strlit("high");
    reveal_strlit("good");
    reveal_strlit("medium");
    reveal_strlit("acceptable");
    if quality_name(a).len() == quality_name(b).len() {
        assert(quality_name(a)[0] != quality_name(b)[0]);
    }
}

/// The output folder for an input path: its folder, a subfolder of it (named
/// `compressed` when the name is blank), or a custom folder (the input's folder
/// when blank). `None` when the input has no parent folder.
pub open spec fn output_folder(input: Seq<char>, out: OutputSettings) -> Option<Seq<char>> {
    match parent(input) {
        None => None,
        Some(p) => Some(match out.location {
            OutputLocation::SameFolder => p,
            OutputLocation::Subfolder => join(
                p,
                if trimmed(out.subfolder_name@).len() == 0 {
                    "compressed"@
                } else {
                    trimmed(out.subfolder_name@)
                },
            ),
            OutputLocation::Custom => if trimmed(out.custom_dir@).len() == 0 {
                p
            } else {
                trimmed(out.custom_dir@)
            },
        }),
    }
}

/// The output folder for an input path.
pub fn output_dir(input: &str, out: &OutputSettings) -> (r: Result<String, String>)
    ensures
        match output_folder(input@, *out) {
            None => r matches Err(e) && e@ == "input has no parent dir"@,
            Some(d) => r matches Ok(s) && s@ == d,
        },
{
    let p = match path_parent(input) {
        Some(p) => p,
        None => return Err(String::from_str("input has no parent dir")),
    };
    match out.location {
        OutputLocation::SameFolder => Ok(p),
        OutputLocation::Subfolder => {
            let name = if is_blank(out.subfolder_name.as_str()) {
                String::from_str("compressed")
            } else {
                trim(out.subfolder_name.as_str())
            };
            Ok(path_join(p.as_str(), name.as_str()))
        },
        OutputLocation::Custom => if is_blank(out.custom_dir.as_str()) {
            Ok(p)
        } else {
            Ok(trim(out.custom_dir.as_str()))
        },
    }
}

/// The name template in force: `{name}` when overwriting the original or when the
/// template is blank.
pub open spec fn template_in_force(out: OutputSettings) -> Seq<char> {
    if out.overwrite_original || trimmed(out.name_template@).len() == 0 {
        "{name}"@
    } else {
        out.name_template@
    }
}

/// `w` and `h` written as `WxH`.
pub open spec fn dims_text(w: int, h: int) -> Seq<char> {
    decimal(w as nat) + "x"@ + decimal(h as nat)
}

/// The `{resolution}` value: the output size, else the source size, else empty.
pub open spec fn resolution_text(info: MediaInfo, resolution: Option<(u32, u32)>) -> Seq<char> {
    match resolution {
        Some(r) => dims_text(r.0 as int, r.1 as int),
        None => match dims(info) {
            Some(d) => dims_text(d.0, d.1),
            None => Seq::empty(),
        },
    }
}

/// The `{name}` value: the input's file stem, or `output`.
pub open spec fn stem_text(info: MediaInfo) -> Seq<char> {
    match file_stem(info.path@) {
        Some(s) => s,
        None => "output"@,
    }
}

/// The template with every variable substituted, in the order
/// `{name} {ext} {quality} {resolution} {codec} {date} {time}`.
pub open spec fn rendered_name(
    tpl: Seq<char>,
    stem: Seq<char>,
    ext: Seq<char>,
    quality: Quality,
    res: Seq<char>,
    codec: Seq<char>,
    date: Seq<char>,
    time: Seq<char>,
) -> Seq<char> {
    let a = replace_all(tpl, "{name}"@, stem);
    let b = replace_all(a, "{ext}"@, ext);
    let c = replace_all(b, "{quality}"@, quality_name(quality));
    let d = replace_all(c, "{resolution}"@, res);
    let e = replace_all(d, "{codec}"@, codec);
    let f = replace_all(e, "{date}"@, date);
    replace_all(f, "{time}"@, time)
}

/// The output file name without extension: the rendered template, sanitized.
/// `date` and `time` are the local `YYYY-MM-DD` and `HH-MM-SS` of the run.
pub open spec fn base_name(
    info: MediaInfo,
    out: OutputSettings,
    quality: Quality,
    codec: Seq<char>,
    ext: Seq<char>,
    resolution: Option<(u32, u32)>,
    date: Seq<char>,
    time: Seq<char>,
) -> Seq<char> {
    sanitized(
        rendered_name(
            template_in_force(out),
            stem_text(info),
            ext,
            quality,
            resolution_text(info, resolution),
            codec,
            date,
            time,
        ),
    )
}

fn dims_string(w: u32, h: u32) -> (r: String)
    ensures
        r@ == dims_text(w as int, h as int),
{
    let mut s = fmt_u64(w as u64);
    s.append("x");
    s.append(fmt_u64(h as u64).as_str());
    s
}

/// Renders the output file name (without extension) from the settings' template.
pub fn file_base(
    info: &MediaInfo,
    out: &OutputSettings,
    quality: Quality,
    codec: &str,
    ext: &str,
    resolution: Option<(u32, u32)>,
    date: &str,
    time: &str,
) -> (r: String)
    ensures
        r@ == base_name(*info, *out, quality, codec@, ext@, resolution, date@, time@),
{
    let tpl = if out.overwrite_original || is_blank(out.name_template.as_str()) {
        String::from_str("{name}")
    } else {
        String::from_str(out.name_template.as_str())
    };
    let stem = match path_file_stem(info.path.as_str()) {
        Some(s) => s,
        None => String::from_str("output"),
    };
    let res = match resolution {
        Some((w, h)) => dims_string(w, h),
        None => match (info.width, info.height) {
            (Some(w), Some(h)) => dims_string(w, h),
            _ => String::new(),
        },
    };
    proof {
        reveal_strlit("{name}");
        reveal_strlit("{ext}");
        reveal_strlit("{quality}");
        reveal_strlit("{resolution}");
        reveal_strlit("{codec}");
        reveal_strlit("{date}");
        reveal_strlit("{time}");
    }
    let a = replace(tpl.as_str(), "{name}", stem.as_str());
    let b = replace(a.as_str(), "{ext}", ext);
    let c = replace(b.as_str(), "{quality}", quality_label(quality));
    let d = replace(c.as_str(), "{resolution}", res.as_str());
    let e = replace(d.as_str(), "{codec}", codec);
    let f = replace(e.as_str(), "{date}", date);
    let g = replace(f.as_str(), "{time}", time);
    sanitize(g.as_str())
}

/// The temporary path beside a final output (same folder, hence an atomic rename):
/// `.feather-<32 hex digits of id>.<ext>` with the final extension, or `tmp`.
pub open spec fn temp_path(final_path: Seq<char>, id: u128) -> Seq<char> {
    let dir = match parent(final_path) {
        Some(d) => d,
        None => "."@,
    };
    let ext = match extension(final_path) {
        Some(e) => e,
        None => "tmp"@,
    };
    join(dir, ".feather-"@ + hex_padded(id as nat, 32) + "."@ + ext)
}

/// `uuid::Uuid::new_v4`, as a 128-bit number: a random identifier whose version
/// field is 4 and whose variant field is the RFC 4122 one; nothing else is known of it.
#[verifier::external_body]
pub(crate) fn random_id() -> (r: u128)
    ensures
        r & 0xf000_c000_0000_0000_0000u128 == 0x4000_8000_0000_0000_0000u128,
{
    uuid::Uuid::new_v4().as_u128()
}

/// The temporary path for `final_path` named after `id`.
pub fn temp_path_with(final_path: &str, id: u128) -> (r: String)
    ensures
        r@ == temp_path(final_path@, id),
{
    let dir = match path_parent(final_path) {
        Some(d) => d,
        None => String::from_str("."),
    };
    let ext = match path_extension(final_path) {
        Some(e) => e,
        None => String::from_str("tmp"),
    };
    let mut name = String::from_str(".feather-");
    name.append(fmt_hex_padded(id, 32).as_str());
    name.append(".");
    name.append(ext.as_str());
    path_join(dir.as_str(), name.as_str())
}

/// A fresh temporary path beside `final_path`, named after a version-4 UUID.
pub fn temp_path_for(final_path: &str) -> (r: String)
    ensures
        exists|id: u128|
            #![trigger temp_path(final_path@, id)]
            r@ == temp_path(final_path@, id) && id & 0xf000_c000_0000_0000_0000u128
                == 0x4000_8000_0000_0000_0000u128,
{
    let id = random_id();
    temp_path_with(final_path, id)
}


/// The `i`-th file name tried for an output: `file.ext`, then `file (1).ext`,
/// `file (2).ext`, and so on.
pub open spec fn candidate_name(file: Seq<char>, ext: Seq<char>, i: nat) -> Seq<char> {
    if i == 0 {
        file + "."@ + ext
    } else {
        file + " ("@ + decimal(i) + ")."@ + ext
    }
}

/// Whether two names may denote one file: equal up to ASCII case, as on a
/// case-insensitive volume.
pub open spec fn same_name(a: Seq<char>, b: Seq<char>) -> bool {
    lower(a) == lower(b)
}

/// Whether the `i`-th candidate is usable: no file in the folder has that name,
/// up to ASCII case, and it is not the input itself (again up to case), so that
/// no file is replaced on a case-insensitive volume either.
pub open spec fn candidate_free(
    dir: Seq<char>,
    file: Seq<char>,
    ext: Seq<char>,
    input: Seq<char>,
    existing: Seq<Seq<char>>,
    i: nat,
) -> bool {
    &&& !exists|k: int| 0 <= k < existing.len() && same_name(#[trigger] existing[k], candidate_name(file, ext, i))
    &&& !same_name(join(dir, candidate_name(file, ext, i)), input)
}

/// The lowercase of a candidate is the candidate of the lowercased parts.
proof fn lemma_candidate_lower(file: Seq<char>, ext: Seq<char>, i: nat)
    ensures
        lower(candidate_name(file, ext, i)) == candidate_name(lower(file), lower(ext), i),
{
    reveal_strlit(".");
    reveal_strlit(" (");
    reveal_strlit(").");
    lemma_lower_fixed("."@);
    lemma_lower_fixed(" ("@);
    lemma_lower_fixed(")."@);
    lemma_decimal_shape(i);
    lemma_lower_fixed(decimal(i));
    if i == 0 {
        lemma_lower_concat(file, "."@);
        lemma_lower_concat(file + "."@, ext);
    } else {
        lemma_lower_concat(file, " ("@);
        lemma_lower_concat(file + " ("@, decimal(i));
        lemma_lower_concat(file + " ("@ + decimal(i), ")."@);
        lemma_lower_concat(file + " ("@ + decimal(i) + ")."@, ext);
    }
}

/// Distinct candidates stay distinct up to case, and so do their paths.
proof fn lemma_candidates_differ(dir: Seq<char>, file: Seq<char>, ext: Seq<char>, i: nat, j: nat)
    requires
        i != j,
    ensures
        !same_name(candidate_name(file, ext, i), candidate_name(file, ext, j)),
        !same_name(join(dir, candidate_name(file, ext, i)), join(dir, candidate_name(file, ext, j))),
{
    let lf = lower(file);
    let le = lower(ext);
    lemma_candidate_lower(file, ext, i);
    lemma_candidate_lower(file, ext, j);
    lemma_candidate_injective(lf, le, i, j);
    lemma_join_lower(dir, candidate_name(file, ext, i));
    lemma_join_lower(dir, candidate_name(file, ext, j));
    lemma_candidate_first(lf, le, i);
    lemma_candidate_first(lf, le, j);
    if join(lower(dir), candidate_name(lf, le, i)) == join(lower(dir), candidate_name(lf, le, j)) {
        lemma_join_injective(lower(dir), candidate_name(lf, le, i), candidate_name(lf, le, j));
    }
}

proof fn lemma_candidate_injective(file: Seq<char>, ext: Seq<char>, i: nat, j: nat)
    requires
        i != j,
    ensures
        candidate_name(file, ext, i) != candidate_name(file, ext, j),
{
    reveal_strlit(".");
    reveal_strlit(" (");
    reveal_strlit(").");
    let ci = candidate_name(file, ext, i);
    let cj = candidate_name(file, ext, j);
    let f = file.len() as int;
    if i == 0 || j == 0 {
        assert(ci[f] != cj[f]);
    } else {
        let a = decimal(i);
        let b = decimal(j);
        lemma_decimal_shape(i);
        lemma_decimal_shape(j);
        if ci == cj {
            if a.len() == b.len() {
                assert forall|t: int| 0 <= t < a.len() implies a[t] == b[t] by {
                    assert(ci[f + 2 + t] == a[t]);
                    assert(cj[f + 2 + t] == b[t]);
                }
                assert(a =~= b);
                lemma_decimal_injective(i, j);
            } else if a.len() < b.len() {
                assert(ci[f + 2 + a.len()] == ')');
                assert(cj[f + 2 + a.len()] == b[a.len() as int]);
            } else {
                assert(cj[f + 2 + b.len()] == ')');
                assert(ci[f + 2 + b.len()] == a[b.len() as int]);
            }
        }
    }
}

proof fn lemma_join_injective(dir: Seq<char>, n1: Seq<char>, n2: Seq<char>)
    requires
        n1.len() > 0,
        n2.len() > 0,
        is_sep(n1[0]) == is_sep(n2[0]),
        join(dir, n1) == join(dir, n2),
    ensures
        n1 == n2,
{
    if !is_sep(n1[0]) && dir.len() > 0 {
        let pre = if is_sep(dir.last()) { dir } else { dir + seq!['/'] };
        assert(join(dir, n1) =~= pre + n1);
        assert(join(dir, n2) =~= pre + n2);
        assert(n1 =~= (pre + n1).skip(pre.len() as int));
        assert(n2 =~= (pre + n2).skip(pre.len() as int));
    }
}

proof fn lemma_candidate_first(file: Seq<char>, ext: Seq<char>, i: nat)
    ensures
        candidate_name(file, ext, i).len() > 0,
        is_sep(candidate_name(file, ext, i)[0]) == (file.len() > 0 && is_sep(file[0])),
{
    reveal_strlit(".");
    reveal_strlit(" (");
    reveal_strlit(").");
    if file.len() > 0 {
        assert(candidate_name(file, ext, i)[0] == file[0]);
    }
}

/// The `i`-th candidate name.
fn candidate(file: &str, ext: &str, i: u128) -> (r: String)
    ensures
        r@ == candidate_name(file@, ext@, i as nat),
{
    let mut s = String::from_str(file);
    if i == 0 {
        s.append(".");
    } else {
        s.append(" (");
        s.append(crate::text::fmt_u128(i).as_str());
        s.append(").");
    }
    s.append(ext);
    s
}

/// The position of a name equal to `name` up to ASCII case in `names`, if any.
fn position_of(names: &Vec<String>, name: &str) -> (r: Option<usize>)
    ensures
        match r {
            Some(k) => k < names@.len() && same_name(names@[k as int]@, name@),
            None => forall|k: int| 0 <= k < names@.len() ==> !same_name(names@[k]@, name@),
        },
{
    let low = to_lower(name);
    let mut k: usize = 0;
    while k < names.len()
        invariant
            k <= names@.len(),
            low@ == lower(name@),
            forall|j: int| 0 <= j < k ==> !same_name(names@[j]@, name@),
        decreases names@.len() - k,
    {
        let nk = to_lower(names[k].as_str());
        if crate::text::text_eq(nk.as_str(), low.as_str()) {
            return Some(k);
        }
        k = k + 1;
    }
    None
}

/// Picks the output path in `dir` for the file name `file` and extension `ext`.
/// When overwriting the original, that is `file.ext`; otherwise it is the first
/// candidate that names no file in `existing` (the names already in `dir`) and is
/// not the input path, both up to ASCII case, so that no file is ever replaced.
pub fn pick_output(
    dir: &str,
    file: &str,
    ext: &str,
    input: &str,
    existing: &Vec<String>,
    overwrite: bool,
) -> (r: String)
    ensures
        overwrite ==> r@ == join(dir@, candidate_name(file@, ext@, 0)),
        !overwrite ==> exists|i: nat|
            #![trigger candidate_name(file@, ext@, i)]
            {
                &&& r@ == join(dir@, candidate_name(file@, ext@, i))
                &&& candidate_free(dir@, file@, ext@, input@, texts(existing@), i)
                &&& forall|j: nat|
                    j < i ==> !#[trigger] candidate_free(
                        dir@,
                        file@,
                        ext@,
                        input@,
                        texts(existing@),
                        j,
                    )
            },
{
    let ghost names = texts(existing@);
    if overwrite {
        let c = candidate(file, ext, 0);
        return path_join(dir, c.as_str());
    }
    let n = existing.len();
    let mut i: u128 = 0;
    let ghost mut used: Set<int> = Set::empty();
    loop
        invariant
            !overwrite,
            n == existing@.len(),
            names == texts(existing@),
            i <= n + 1,
            used.finite(),
            used.len() == i,
            forall|k: int| used.contains(k) ==> -1 <= k < n,
            forall|k: int|
                used.contains(k) ==> exists|j: nat|
                    j < i && #[trigger] blocks(k, j, dir@, file@, ext@, input@, names),
            forall|j: nat| j < i ==> !candidate_free(dir@, file@, ext@, input@, names, j),
        decreases n + 1 - i,
    {
        let c = candidate(file, ext, i);
        let p = path_join(dir, c.as_str());
        let pos = position_of(existing, c.as_str());
        let hit_input = crate::text::text_eq(to_lower(p.as_str()).as_str(), to_lower(input).as_str());
        if pos.is_none() && !hit_input {
            assert(!exists|k: int| 0 <= k < names.len() && same_name(#[trigger] names[k], c@)) by {
                if exists|k: int| 0 <= k < names.len() && same_name(#[trigger] names[k], c@) {
                    let k = choose|k: int| 0 <= k < names.len() && same_name(#[trigger] names[k], c@);
                    assert(names[k] == existing@[k]@);
                }
            }
            assert(candidate_free(dir@, file@, ext@, input@, names, i as nat));
            assert(p@ == join(dir@, candidate_name(file@, ext@, i as nat)));
            return p;
        }
        let ghost k: int = match pos {
            Some(x) => x as int,
            None => -1,
        };
        proof {
            assert(blocks(k, i as nat, dir@, file@, ext@, input@, names));
            if used.contains(k) {
                let j = choose|j: nat| j < i && #[trigger] blocks(k, j, dir@, file@, ext@, input@, names);
                lemma_candidates_differ(dir@, file@, ext@, j, i as nat);
            }
            assert(!used.contains(k));
            let used2 = used.insert(k);
            assert(used2.len() == i + 1);
            vstd::set_lib::lemma_int_range(-1, n as int);
            assert(used2.subset_of(vstd::set_lib::set_int_range(-1, n as int)));
            vstd::set_lib::lemma_len_subset(used2, vstd::set_lib::set_int_range(-1, n as int));
            assert(!candidate_free(dir@, file@, ext@, input@, names, i as nat)) by {
                if pos.is_some() {
                    assert(names[k] == existing@[k]@);
                }
            }
            assert forall|k2: int| used2.contains(k2) implies exists|j: nat|
                j < i + 1 && #[trigger] blocks(k2, j, dir@, file@, ext@, input@, names) by {
                if k2 == k {
                    assert(blocks(k2, i as nat, dir@, file@, ext@, input@, names));
                } else {
                    let j = choose|j: nat| j < i && #[trigger] blocks(k2, j, dir@, file@, ext@, input@, names);
                    assert(blocks(k2, j, dir@, file@, ext@, input@, names));
                }
            }
            used = used2;
        }
        i = i + 1;
    }
}

/// Whether the entry `k` of `names` (or, for `k == -1`, the input path) rules out
/// the `j`-th candidate.
pub open spec fn blocks(
    k: int,
    j: nat,
    dir: Seq<char>,
    file: Seq<char>,
    ext: Seq<char>,
    input: Seq<char>,
    names: Seq<Seq<char>>,
) -> bool {
    if k == -1 {
        same_name(join(dir, candidate_name(file, ext, j)), input)
    } else {
        0 <= k < names.len() && same_name(names[k], candidate_name(file, ext, j))
    }
}


/// The first usable candidate index.
pub open spec fn is_first_free(
    dir: Seq<char>,
    file: Seq<char>,
    ext: Seq<char>,
    input: Seq<char>,
    existing: Seq<Seq<char>>,
    i: nat,
) -> bool {
    &&& candidate_free(dir, file, ext, input, existing, i)
    &&& forall|j: nat| j < i ==> !#[trigger] candidate_free(dir, file, ext, input, existing, j)
}

/// Resolves the final output path: output folder, templated and sanitized file
/// name, and extension, avoiding name collisions with an incrementing suffix
/// (`name (1).ext`, ...) unless overwriting the original. `existing` holds the names
/// of the files already in the output folder; `date` and `time` are the local
/// `YYYY-MM-DD` and `HH-MM-SS` of the run.
pub fn resolve_output(
    info: &MediaInfo,
    out: &OutputSettings,
    quality: Quality,
    codec: &str,
    ext: &str,
    resolution: Option<(u32, u32)>,
    date: &str,
    time: &str,
    existing: &Vec<String>,
) -> (r: Result<String, String>)
    ensures
        match output_folder(info.path@, *out) {
            None => r matches Err(e) && e@ == "input has no parent dir"@,
            Some(d) => r matches Ok(p) && ({
                let file = base_name(*info, *out, quality, codec@, ext@, resolution, date@, time@);
                &&& out.overwrite_original ==> p@ == join(d, candidate_name(file, ext@, 0))
                &&& !out.overwrite_original ==> exists|i: nat|
                    #![trigger candidate_name(file, ext@, i)]
                    p@ == join(d, candidate_name(file, ext@, i)) && is_first_free(
                        d,
                        file,
                        ext@,
                        info.path@,
                        texts(existing@),
                        i,
                    )
            }),
        },
{
    let dir = match output_dir(info.path.as_str(), out) {
        Ok(d) => d,
        Err(e) => return Err(e),
    };
    let file = file_base(info, out, quality, codec, ext, resolution, date, time);
    let p = pick_output(
        dir.as_str(),
        file.as_str(),
        ext,
        info.path.as_str(),
        existing,
        out.overwrite_original,
    );
    Ok(p)
}

/// One file-system step of putting a finished encoding in place.
#[derive(Debug, Clone, Copy, PartialEq, Eq, Structural)]
pub enum FsStep {
    /// Delete the temporary file.
    RemoveTemp,
    /// Copy the input's bytes to the final path.
    CopyInputToFinal,
    /// Rename the temporary file to the final path (replacing what is there).
    MoveTempToFinal,
    /// Give the final file the input's timestamps, as read before any step.
    CopyDatesToFinal,
    /// Move the input to the Trash (it was replaced by a file of another name,
    /// or the settings ask for it).
    TrashInput,
}

/// How a finished encoding is put in place: the steps, in order, and whether
/// the result is the input itself (left untouched) rather than the final path,
/// with the resulting file's size.
pub struct FinalizePlan {
    pub steps: Vec<FsStep>,
    pub result_is_input: bool,
    pub size: u64,
}

/// The steps that put an encoding of `tmp_size` bytes in place, for an input of
/// `input_size` bytes; `same_path` tells whether the final path is the input's.
///
/// When the encoding is no smaller and larger results are skipped, the
/// original is kept: in overwrite mode nothing else is written; otherwise the
/// final path gets a copy of the original. Else the encoding is moved to the
/// final path, and the input, when the final path is another one, is moved to
/// the Trash if it was overwritten under another name or is to be trashed. Timestamps
/// are carried over when asked.
pub open spec fn finalize_steps(same_path: bool, out: OutputSettings, input_size: u64, tmp_size: u64) -> (Seq<FsStep>, bool, u64) {
    let dates = if out.keep_dates { seq![FsStep::CopyDatesToFinal] } else { Seq::empty() };
    if out.skip_if_larger && tmp_size >= input_size {
        if out.overwrite_original {
            (seq![FsStep::RemoveTemp], true, input_size)
        } else {
            (seq![FsStep::CopyInputToFinal] + dates + seq![FsStep::RemoveTemp], false, input_size)
        }
    } else {
        let remove = if !same_path && (out.overwrite_original || out.trash_original) {
            seq![FsStep::TrashInput]
        } else {
            Seq::empty()
        };
        (seq![FsStep::MoveTempToFinal] + dates + remove, false, tmp_size)
    }
}

/// Plans how a finished encoding of `tmp_size` bytes replaces or joins the
/// input at `input`, going to `final_path`.
pub fn finalize_plan(input: &str, final_path: &str, out: &OutputSettings, input_size: u64, tmp_size: u64) -> (r: FinalizePlan)
    ensures
        (r.steps@, r.result_is_input, r.size) == finalize_steps(final_path@ == input@, *out, input_size, tmp_size),
{
    let same = crate::text::text_eq(final_path, input);
    let mut steps: Vec<FsStep> = Vec::new();
    if out.skip_if_larger && tmp_size >= input_size {
        if out.overwrite_original {
            steps.push(FsStep::RemoveTemp);
            assert(steps@ =~= seq![FsStep::RemoveTemp]);
            return FinalizePlan { steps, result_is_input: true, size: input_size };
        }
        steps.push(FsStep::CopyInputToFinal);
        if out.keep_dates {
            steps.push(FsStep::CopyDatesToFinal);
        }
        steps.push(FsStep::RemoveTemp);
        assert(steps@ =~= finalize_steps(same, *out, input_size, tmp_size).0);
        return FinalizePlan { steps, result_is_input: false, size: input_size };
    }
    steps.push(FsStep::MoveTempToFinal);
    if out.keep_dates {
        steps.push(FsStep::CopyDatesToFinal);
    }
    if !same && (out.overwrite_original || out.trash_original) {
        steps.push(FsStep::TrashInput);
    }
    assert(steps@ =~= finalize_steps(same, *out, input_size, tmp_size).0);
    FinalizePlan { steps, result_is_input: false, size: tmp_size }
}

/// Putting an encoding in place never loses the input's content: the input is
/// trashed only after the encoding has been moved to a different final path.
pub proof fn law_finalize_keeps_content(same_path: bool, out: OutputSettings, input_size: u64, tmp_size: u64)
    ensures
        ({
            let steps = finalize_steps(same_path, out, input_size, tmp_size).0;
            forall|i: int| 0 <= i < steps.len() && steps[i] == FsStep::TrashInput ==> !same_path && exists|j: int|
                0 <= j < i && steps[j] == FsStep::MoveTempToFinal
        }),
{
    let steps = finalize_steps(same_path, out, input_size, tmp_size).0;
    assert forall|i: int| 0 <= i < steps.len() && steps[i] == FsStep::TrashInput implies !same_path && exists|j: int|
        0 <= j < i && steps[j] == FsStep::MoveTempToFinal by {
        if out.skip_if_larger && tmp_size >= input_size {
            if !out.overwrite_original {
                assert(steps[i] != FsStep::TrashInput);
            }
        } else {
            assert(steps[0] == FsStep::MoveTempToFinal);
            assert(i > 0);
        }
    }
}

} // verus!
