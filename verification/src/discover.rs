//! Discovery over the entry-name list: the three structural roots, the
//! channel id set, the layout generation of the export, and per-channel
//! path construction.
use vstd::prelude::*;
use vstd::string::{StrSliceExecFns, StringExecFns};
use crate::archive::Archive;
use crate::models::{Layout, StructuralError};
use crate::patterns::{
    channel_dir_id, chars_window_eq, find_channel_dir_id, find_probe_cut, find_user_probe,
    is_user_probe, probe_cut, starts_with,
};
use crate::text::chars_of;

verus! {

/// The first probe match sits at position `i` and yields `root`.
pub open spec fn probe_found_at(
    files: Seq<String>,
    suffix: Seq<char>,
    allow_c: bool,
    i: int,
    root: Seq<char>,
) -> bool {
    &&& 0 <= i < files.len()
    &&& forall|j: int| 0 <= j < i ==> probe_cut(#[trigger] files[j]@, suffix, allow_c) is None
    &&& match probe_cut(files[i]@, suffix, allow_c) {
        Some(cut) => root == files[i]@.subrange(0, cut),
        None => false,
    }
}

/// Some first probe match determines `root`.
pub open spec fn probe_root_found(
    files: Seq<String>,
    suffix: Seq<char>,
    allow_c: bool,
    root: Seq<char>,
) -> bool {
    exists|i: int| probe_found_at(files, suffix, allow_c, i, root)
}

/// Some first user-probe match determines `root`.
pub open spec fn user_root_found(files: Seq<String>, root: Seq<char>) -> bool {
    exists|i: int| user_found_at(files, i, root)
}

/// No entry name matches the probe.
pub open spec fn no_probe(files: Seq<String>, suffix: Seq<char>, allow_c: bool) -> bool {
    forall|i: int| 0 <= i < files.len() ==> probe_cut(#[trigger] files[i]@, suffix, allow_c) is None
}

/// Scan the names for the first probe match and return the root it
/// determines: the name cut at the separator that opens the id segment.
fn find_probe_root(files: &Vec<String>, suffix: &Vec<char>, allow_c: bool) -> (r: Option<String>)
    ensures
        r matches Some(root) ==> probe_root_found(files@, suffix@, allow_c, root@),
        r is None ==> no_probe(files@, suffix@, allow_c),
{
    let mut i: usize = 0;
    while i < files.len()
        invariant
            i <= files@.len(),
            forall|j: int| 0 <= j < i ==> probe_cut(#[trigger] files@[j]@, suffix@, allow_c) is None,
        decreases files@.len() - i,
    {
        let cs = chars_of(files[i].as_str());
        match find_probe_cut(&cs, suffix, allow_c) {
            Some(p) => {
                let root = files[i].as_str().substring_char(0, p).to_owned();
                proof {
                    assert(probe_found_at(files@, suffix@, allow_c, i as int, root@));
                    assert(probe_root_found(files@, suffix@, allow_c, root@));
                }
                return Some(root);
            },
            None => {},
        }
        i += 1;
    }
    None
}

/// The parent directory of the first entry matching
/// `/c?<16-32 digits>/channel.json`; the message root of the export.
pub fn get_messages_root(files: &Vec<String>) -> (r: Result<String, StructuralError>)
    ensures
        r matches Ok(root) ==> probe_root_found(files@, "/channel.json"@, true, root@),
        r matches Err(e) ==> e == StructuralError::MissingMessageRoot && no_probe(
            files@,
            "/channel.json"@,
            true,
        ),
{
    let suffix = chars_of("/channel.json");
    match find_probe_root(files, &suffix, true) {
        Some(root) => Ok(root),
        None => Err(StructuralError::MissingMessageRoot),
    }
}

/// The parent directory of the first entry matching
/// `/<16-32 digits>/guild.json`; the server root of the export.
pub fn get_servers_root(files: &Vec<String>) -> (r: Result<String, StructuralError>)
    ensures
        r matches Ok(root) ==> probe_root_found(files@, "/guild.json"@, false, root@),
        r matches Err(e) ==> e == StructuralError::MissingServerRoot && no_probe(
            files@,
            "/guild.json"@,
            false,
        ),
{
    let suffix = chars_of("/guild.json");
    match find_probe_root(files, &suffix, false) {
        Some(root) => Ok(root),
        None => Err(StructuralError::MissingServerRoot),
    }
}

/// The first user-probe match sits at position `i` and yields `root`.
pub open spec fn user_found_at(files: Seq<String>, i: int, root: Seq<char>) -> bool {
    &&& 0 <= i < files.len()
    &&& forall|j: int| 0 <= j < i ==> !is_user_probe(#[trigger] files[j]@)
    &&& is_user_probe(files[i]@)
    &&& root == files[i]@.subrange(0, files[i]@.len() - "/user.json"@.len())
}

/// The top-level directory of the first entry matching `<name>/user.json`;
/// the user root of the export.
pub fn get_user_root(files: &Vec<String>) -> (r: Result<String, StructuralError>)
    ensures
        r matches Ok(root) ==> user_root_found(files@, root@),
        r matches Err(e) ==> e == StructuralError::MissingUserRoot && forall|i: int|
            0 <= i < files@.len() ==> !is_user_probe(#[trigger] files@[i]@),
{
    let suffix = chars_of("/user.json");
    let mut i: usize = 0;
    while i < files.len()
        invariant
            i <= files@.len(),
            suffix@ == "/user.json"@,
            forall|j: int| 0 <= j < i ==> !is_user_probe(#[trigger] files@[j]@),
        decreases files@.len() - i,
    {
        let cs = chars_of(files[i].as_str());
        match find_user_probe(&cs, &suffix) {
            Some(p) => {
                let root = files[i].as_str().substring_char(0, p).to_owned();
                proof {
                    assert(user_found_at(files@, i as int, root@));
                    assert(user_root_found(files@, root@));
                }
                return Ok(root);
            },
            None => {},
        }
        i += 1;
    }
    Err(StructuralError::MissingUserRoot)
}

/// The channel id contributed by one entry name: present when the name
/// lies under the message root and ends in a digit-run directory.
pub open spec fn channel_id_entry(name: Seq<char>, root: Seq<char>) -> Option<Seq<char>> {
    if starts_with(name, root) {
        channel_dir_id(name)
    } else {
        None
    }
}

/// All channel ids contributed by the names, in order.
pub open spec fn collect_ids(files: Seq<String>, root: Seq<char>) -> Seq<Seq<char>>
    decreases files.len(),
{
    if files.len() == 0 {
        Seq::empty()
    } else {
        collect_ids(files.drop_last(), root) + match channel_id_entry(files.last()@, root) {
            Some(id) => seq![id],
            None => Seq::empty(),
        }
    }
}

/// Scan all entry names for channel directories under the message root.
pub fn find_channel_ids(files: &Vec<String>, root: &String) -> (r: Vec<String>)
    ensures
        r@.map(|k: int, s: String| s@) == collect_ids(files@, root@),
{
    let root_cs = chars_of(root.as_str());
    let mut r: Vec<String> = Vec::new();
    let mut i: usize = 0;
    while i < files.len()
        invariant
            i <= files@.len(),
            root_cs@ == root@,
            r@.map(|k: int, s: String| s@) == collect_ids(files@.subrange(0, i as int), root@),
        decreases files@.len() - i,
    {
        let ghost prev = r@.map(|k: int, s: String| s@);
        let cs = chars_of(files[i].as_str());
        let mut added: bool = false;
        if root_cs.len() <= cs.len() {
            if chars_window_eq(&cs, 0, &root_cs) {
                proof {
                    assert(cs@.subrange(0, root_cs@.len() as int) == root_cs@);
                    assert(starts_with(files@[i as int]@, root@));
                }
                match find_channel_dir_id(&cs) {
                    Some(id_chars) => {
                        let mut id = String::new();
                        let mut k: usize = 0;
                        while k < id_chars.len()
                            invariant
                                k <= id_chars@.len(),
                                id@ == id_chars@.subrange(0, k as int),
                            decreases id_chars@.len() - k,
                        {
                            crate::text::push_char(&mut id, id_chars[k]);
                            proof {
                                assert(id@ =~= id_chars@.subrange(0, k + 1));
                            }
                            k += 1;
                        }
                        proof {
                            assert(id@ =~= id_chars@);
                        }
                        r.push(id);
                        added = true;
                    },
                    None => {},
                }
            }
        }
        proof {
            let sub1 = files@.subrange(0, i + 1);
            assert(sub1.drop_last() =~= files@.subrange(0, i as int));
            assert(sub1.last() == files@[i as int]);
            if !added {
                if starts_with(files@[i as int]@, root@) {
                } else {
                    assert(channel_id_entry(files@[i as int]@, root@) is None);
                }
                assert(r@.map(|k: int, s: String| s@) =~= collect_ids(sub1, root@));
            } else {
                assert(r@.map(|k: int, s: String| s@) =~= collect_ids(sub1, root@));
            }
        }
        i += 1;
    }
    proof {
        assert(files@.subrange(0, files@.len() as int) =~= files@);
    }
    r
}

/// Path of a channel's metadata file under the message root.
pub open spec fn meta_path(root: Seq<char>, prefix: Seq<char>, id: Seq<char>) -> Seq<char> {
    root + "/"@ + prefix + id + "/channel.json"@
}

/// Path of a channel's message file under the message root.
pub open spec fn msgs_path(root: Seq<char>, prefix: Seq<char>, id: Seq<char>, ext: Seq<char>) -> Seq<
    char,
> {
    root + "/"@ + prefix + id + "/messages."@ + ext
}

/// The directory prefix a layout puts before channel ids: none where
/// the unprefixed-metadata probe matched.
pub open spec fn prefix_of(layout: Layout) -> Seq<char> {
    if layout.legacy_names {
        ""@
    } else {
        "c"@
    }
}

/// The message-file extension of a layout: tabular where no message file
/// with the newer extension was found.
pub open spec fn ext_of(layout: Layout) -> Seq<char> {
    if layout.csv_messages {
        "csv"@
    } else {
        "json"@
    }
}

/// Executable mirror of `prefix_of`.
pub fn layout_prefix(layout: Layout) -> (r: &'static str)
    ensures
        r@ == prefix_of(layout),
{
    if layout.legacy_names {
        ""
    } else {
        "c"
    }
}

/// Executable mirror of `ext_of`.
pub fn layout_ext(layout: Layout) -> (r: &'static str)
    ensures
        r@ == ext_of(layout),
{
    if layout.csv_messages {
        "csv"
    } else {
        "json"
    }
}

/// Concatenation of five path pieces.
pub fn concat5(a: &str, b: &str, c: &str, d: &str, e: &str) -> (r: String)
    ensures
        r@ == a@ + b@ + c@ + d@ + e@,
{
    let mut r = a.to_owned();
    r.append(b);
    r.append(c);
    r.append(d);
    r.append(e);
    proof {
        assert(r@ =~= a@ + b@ + c@ + d@ + e@);
    }
    r
}

/// Build a channel's metadata path for a layout.
pub fn build_meta_path(root: &String, layout: Layout, id: &String) -> (r: String)
    ensures
        r@ == meta_path(root@, prefix_of(layout), id@),
{
    let r = concat5(root.as_str(), "/", layout_prefix(layout), id.as_str(), "/channel.json");
    proof {
        assert(r@ =~= meta_path(root@, prefix_of(layout), id@));
    }
    r
}

/// Build a channel's message-file path for a layout.
pub fn build_msgs_path(root: &String, layout: Layout, id: &String) -> (r: String)
    ensures
        r@ == msgs_path(root@, prefix_of(layout), id@, ext_of(layout)),
{
    let mut r = concat5(root.as_str(), "/", layout_prefix(layout), id.as_str(), "/messages.");
    r.append(layout_ext(layout));
    proof {
        assert(r@ =~= msgs_path(root@, prefix_of(layout), id@, ext_of(layout)));
    }
    r
}

/// Some discovered channel has its metadata file at the unprefixed
/// directory name: the mark of the oldest export generation.
pub open spec fn has_legacy_marker(a: Archive, root: Seq<char>, ids: Seq<Seq<char>>) -> bool {
    exists|k: int|
        0 <= k < ids.len() && a.has_entry(meta_path(root, ""@, #[trigger] ids[k]))
}

/// Some discovered channel has a prefixed-directory message file with the
/// newer extension: the mark of the current generation.
pub open spec fn has_current_marker(a: Archive, root: Seq<char>, ids: Seq<Seq<char>>) -> bool {
    exists|k: int|
        0 <= k < ids.len() && a.has_entry(msgs_path(root, "c"@, #[trigger] ids[k], "json"@))
}

/// The layout applied globally for the rest of a run: the two probes
/// are independent, so an archive may pair unprefixed directories with
/// either message format.
pub open spec fn detected_layout(a: Archive, root: Seq<char>, ids: Seq<Seq<char>>) -> Layout {
    Layout {
        legacy_names: has_legacy_marker(a, root, ids),
        csv_messages: !has_current_marker(a, root, ids),
    }
}

/// Classify the export's layout by probing the two marker files over
/// the discovered channel ids. Decided once per run.
pub fn detect_layout(a: &Archive, root: &String, ids: &Vec<String>) -> (r: Layout)
    ensures
        r == detected_layout(*a, root@, ids@.map(|k: int, s: String| s@)),
{
    let ghost idseq = ids@.map(|k: int, s: String| s@);
    let mut legacy_names: bool = false;
    let mut i: usize = 0;
    while i < ids.len() && !legacy_names
        invariant
            i <= ids@.len(),
            idseq == ids@.map(|k: int, s: String| s@),
            legacy_names ==> has_legacy_marker(*a, root@, idseq),
            !legacy_names ==> forall|k: int|
                0 <= k < i ==> !a.has_entry(meta_path(root@, ""@, #[trigger] idseq[k])),
        decreases ids@.len() - i,
    {
        let path = build_meta_path(root, Layout { legacy_names: true, csv_messages: false }, &ids[i]);
        if a.file_exists(path.as_str()) {
            proof {
                assert(a.has_entry(meta_path(root@, ""@, idseq[i as int])));
            }
            legacy_names = true;
        }
        i += 1;
    }
    let mut current_marker: bool = false;
    let mut j: usize = 0;
    while j < ids.len() && !current_marker
        invariant
            j <= ids@.len(),
            idseq == ids@.map(|k: int, s: String| s@),
            current_marker ==> has_current_marker(*a, root@, idseq),
            !current_marker ==> forall|k: int|
                0 <= k < j ==> !a.has_entry(msgs_path(root@, "c"@, #[trigger] idseq[k], "json"@)),
        decreases ids@.len() - j,
    {
        let path = build_msgs_path(
            root,
            Layout { legacy_names: false, csv_messages: false },
            &ids[j],
        );
        if a.file_exists(path.as_str()) {
            proof {
                assert(a.has_entry(msgs_path(root@, "c"@, idseq[j as int], "json"@)));
            }
            current_marker = true;
        }
        j += 1;
    }
    Layout { legacy_names, csv_messages: !current_marker }
}

} // verus!
