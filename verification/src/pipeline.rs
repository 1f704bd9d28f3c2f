//! The extraction pipeline: a fixed sequence from structural discovery
//! through per-channel aggregation to the immutable result snapshot,
//! emitting progress events along the way. A single bad record never
//! aborts a run; a missing structural root always does.
use vstd::prelude::*;
use vstd::string::StringExecFns;
use crate::archive::{Archive, ArchiveEntry};
use crate::discover::{
    build_meta_path, build_msgs_path, detect_layout, find_channel_ids, get_messages_root,
    get_servers_root, get_user_root, no_probe,
};
use crate::identity::{
    compute_default_avatar_url, concat3, default_avatar_url, load_user_avatar, resolve_identity,
};
use crate::identity::avatar_of;
use crate::json::{
    channel_from_value, parse_json, payment_matches, record_tree_of, string_map_entries,
    string_map_of_tree, user_from_value, user_of_tree, UserModel,
};
use crate::payments::{confirmed_of, fold_totals, is_rendered_history, total_views};
use crate::messages::{parse_csv, parse_json_messages};
use crate::models::{
    ExtractedData, FavoriteWord, Layout, ParsedMessage, ProgressSink, RecordError,
    StructuralError, TopChannel, TopDM, User, UserData,
};
use crate::patterns::{is_analytics_path, is_user_probe, probe_cut};
use crate::payments::process_payments;
use crate::rank::{is_top_selection, top_positions};
use crate::stats::{
    byte_len, fold_chars, fold_hist, fold_messages, fold_tallies, sat_fold, sat_sum, tallies_wf,
    tally_views, RunningStats, WordTally,
};
use crate::text::{chars_of, push_u64};

verus! {

/// One community channel's accumulated contribution.
pub struct ChannelTally {
    pub name: String,
    pub guild_name: String,
    pub count: usize,
}

/// One direct-message thread's accumulated contribution.
pub struct DmTally {
    pub id: String,
    pub dm_user_id: String,
    pub count: usize,
}

pub open spec fn channel_counts(chs: Seq<ChannelTally>) -> Seq<usize> {
    chs.map(|i: int, t: ChannelTally| t.count)
}

pub open spec fn dm_counts(dms: Seq<DmTally>) -> Seq<usize> {
    dms.map(|i: int, t: DmTally| t.count)
}

pub open spec fn counts_of_tallies(ts: Seq<(Seq<char>, int)>) -> Seq<usize> {
    ts.map(|i: int, t: (Seq<char>, int)| t.1 as usize)
}

/// `r` reports the tallies at the selected positions, in order.
pub open spec fn matches_channels(
    chs: Seq<ChannelTally>,
    pos: Seq<usize>,
    r: Seq<TopChannel>,
) -> bool {
    &&& r.len() == pos.len()
    &&& forall|i: int|
        0 <= i < r.len() ==> (#[trigger] pos[i]) < chs.len() && r[i].name@ == chs[pos[i] as int].name@
            && r[i].message_count == chs[pos[i] as int].count && match r[i].guild_name {
            Some(g) => g@ == chs[pos[i] as int].guild_name@,
            None => false,
        }
}

/// The reported top channels are the stable top-ten selection.
pub open spec fn is_top_channels(chs: Seq<ChannelTally>, r: Seq<TopChannel>) -> bool {
    exists|pos: Seq<usize>|
        #[trigger] is_top_selection(channel_counts(chs), pos, 10) && matches_channels(chs, pos, r)
}

pub open spec fn matches_dms(dms: Seq<DmTally>, pos: Seq<usize>, r: Seq<TopDM>) -> bool {
    &&& r.len() == pos.len()
    &&& forall|i: int|
        0 <= i < r.len() ==> (#[trigger] pos[i]) < dms.len() && r[i].id@ == dms[pos[i] as int].id@
            && r[i].dm_user_id@ == dms[pos[i] as int].dm_user_id@ && r[i].message_count
            == dms[pos[i] as int].count && r[i].user_data is None
}

/// The reported top threads are the stable top-ten selection.
pub open spec fn is_top_dms(dms: Seq<DmTally>, r: Seq<TopDM>) -> bool {
    exists|pos: Seq<usize>|
        #[trigger] is_top_selection(dm_counts(dms), pos, 10) && matches_dms(dms, pos, r)
}

pub open spec fn matches_words(
    ts: Seq<(Seq<char>, int)>,
    pos: Seq<usize>,
    r: Seq<FavoriteWord>,
) -> bool {
    &&& r.len() == pos.len()
    &&& forall|i: int|
        0 <= i < r.len() ==> (#[trigger] pos[i]) < ts.len() && r[i].word@ == ts[pos[i] as int].0 && r[i].count
            as int == ts[pos[i] as int].1
}

/// The reported favorite words are the stable top-ten selection of the
/// word tallies.
pub open spec fn is_favorite_words(ts: Seq<(Seq<char>, int)>, r: Seq<FavoriteWord>) -> bool {
    exists|pos: Seq<usize>|
        #[trigger] is_top_selection(counts_of_tallies(ts), pos, 10) && matches_words(ts, pos, r)
}

/// Build the reported top channels from the accumulated tallies.
#[verifier::loop_isolation(false)]
pub fn top_channels_of(chs: &Vec<ChannelTally>) -> (r: Vec<TopChannel>)
    ensures
        is_top_channels(chs@, r@),
        r@.len() <= 10,
{
    let mut counts: Vec<usize> = Vec::new();
    let mut i: usize = 0;
    while i < chs.len()
        invariant
            i <= chs@.len(),
            counts@.len() == i,
            forall|k: int| 0 <= k < i ==> #[trigger] counts@[k] == chs@[k].count,
        decreases chs@.len() - i,
    {
        counts.push(chs[i].count);
        i += 1;
    }
    proof {
        assert(counts@ =~= channel_counts(chs@));
    }
    let pos = top_positions(&counts, 10);
    let mut r: Vec<TopChannel> = Vec::new();
    let mut j: usize = 0;
    while j < pos.len()
        invariant
            j <= pos@.len(),
            forall|k: int| 0 <= k < pos@.len() ==> (#[trigger] pos@[k]) < chs@.len(),
            matches_channels(chs@, pos@.subrange(0, j as int), r@),
        decreases pos@.len() - j,
    {
        let t = &chs[pos[j]];
        r.push(
            TopChannel {
                name: t.name.clone(),
                message_count: t.count,
                guild_name: Some(t.guild_name.clone()),
            },
        );
        proof {
            assert(pos@.subrange(0, j + 1).drop_last() =~= pos@.subrange(0, j as int));
            assert(matches_channels(chs@, pos@.subrange(0, j + 1), r@));
        }
        j += 1;
    }
    proof {
        assert(pos@.subrange(0, pos@.len() as int) =~= pos@);
        assert(is_top_selection(channel_counts(chs@), pos@, 10));
        assert(is_top_channels(chs@, r@));
    }
    r
}

/// Build the reported top threads from the accumulated tallies.
#[verifier::loop_isolation(false)]
pub fn top_dms_of(dms: &Vec<DmTally>) -> (r: Vec<TopDM>)
    ensures
        is_top_dms(dms@, r@),
        r@.len() <= 10,
{
    let mut counts: Vec<usize> = Vec::new();
    let mut i: usize = 0;
    while i < dms.len()
        invariant
            i <= dms@.len(),
            counts@.len() == i,
            forall|k: int| 0 <= k < i ==> #[trigger] counts@[k] == dms@[k].count,
        decreases dms@.len() - i,
    {
        counts.push(dms[i].count);
        i += 1;
    }
    proof {
        assert(counts@ =~= dm_counts(dms@));
    }
    let pos = top_positions(&counts, 10);
    let mut r: Vec<TopDM> = Vec::new();
    let mut j: usize = 0;
    while j < pos.len()
        invariant
            j <= pos@.len(),
            forall|k: int| 0 <= k < pos@.len() ==> (#[trigger] pos@[k]) < dms@.len(),
            matches_dms(dms@, pos@.subrange(0, j as int), r@),
        decreases pos@.len() - j,
    {
        let t = &dms[pos[j]];
        r.push(
            TopDM {
                id: t.id.clone(),
                dm_user_id: t.dm_user_id.clone(),
                message_count: t.count,
                user_data: None,
            },
        );
        proof {
            let ghost p1 = pos@.subrange(0, j + 1);
            let ghost p0 = pos@.subrange(0, j as int);
            assert(p1.drop_last() =~= p0);
            assert(p1.last() == pos@[j as int]);
            assert forall|i: int| 0 <= i < r@.len() implies (#[trigger] p1[i]) < dms@.len()
                && r@[i].id@ == dms@[p1[i] as int].id@ && r@[i].dm_user_id@ == dms@[p1[i] as int].dm_user_id@
                && r@[i].message_count == dms@[p1[i] as int].count && r@[i].user_data is None by {
                if i < j {
                    assert(p1[i] == p0[i]);
                }
            }
            assert(matches_dms(dms@, p1, r@));
        }
        j += 1;
    }
    proof {
        assert(pos@.subrange(0, pos@.len() as int) =~= pos@);
        assert(is_top_selection(dm_counts(dms@), pos@, 10));
        assert(is_top_dms(dms@, r@));
    }
    r
}

/// Build the reported favorite words from the word tallies.
#[verifier::loop_isolation(false)]
pub fn favorite_words_of(words: &Vec<WordTally>) -> (r: Vec<FavoriteWord>)
    requires
        tallies_wf(tally_views(words@)),
    ensures
        is_favorite_words(tally_views(words@), r@),
        r@.len() <= 10,
        forall|i: int| 0 <= i < r@.len() ==> byte_len((#[trigger] r@[i]).word@) > 5,
{
    let ghost ts = tally_views(words@);
    let mut counts: Vec<usize> = Vec::new();
    let mut i: usize = 0;
    while i < words.len()
        invariant
            i <= words@.len(),
            ts == tally_views(words@),
            counts@.len() == i,
            forall|k: int| 0 <= k < i ==> #[trigger] counts@[k] as int == ts[k].1,
        decreases words@.len() - i,
    {
        counts.push(words[i].count);
        proof {
            assert(ts[i as int] == (words@[i as int].word@, words@[i as int].count as int));
        }
        i += 1;
    }
    proof {
        assert(counts@ =~= counts_of_tallies(ts));
    }
    let pos = top_positions(&counts, 10);
    let mut r: Vec<FavoriteWord> = Vec::new();
    let mut j: usize = 0;
    while j < pos.len()
        invariant
            j <= pos@.len(),
            ts == tally_views(words@),
            forall|k: int| 0 <= k < pos@.len() ==> (#[trigger] pos@[k]) < words@.len(),
            matches_words(ts, pos@.subrange(0, j as int), r@),
            forall|k: int| 0 <= k < r@.len() ==> byte_len((#[trigger] r@[k]).word@) > 5,
        decreases pos@.len() - j,
    {
        let t = &words[pos[j]];
        r.push(FavoriteWord { word: t.word.clone(), count: t.count });
        proof {
            assert(ts[pos@[j as int] as int] == (t.word@, t.count as int));
            assert(pos@.subrange(0, j + 1).drop_last() =~= pos@.subrange(0, j as int));
            assert(matches_words(ts, pos@.subrange(0, j + 1), r@));
        }
        j += 1;
    }
    proof {
        assert(pos@.subrange(0, pos@.len() as int) =~= pos@);
        assert(is_top_selection(counts_of_tallies(ts), pos@, 10));
        assert(is_favorite_words(ts, r@));
    }
    r
}

/// First value recorded in the name index for `key`.
pub open spec fn name_lookup(ix: Seq<(String, String)>, key: Seq<char>, i: int) -> Option<Seq<char>>
    decreases ix.len() - i,
{
    if i < 0 || i >= ix.len() {
        None
    } else if ix[i].0@ == key {
        Some(ix[i].1@)
    } else {
        name_lookup(ix, key, i + 1)
    }
}

/// The display name of a channel: its index entry, or the raw id.
pub open spec fn display_name_spec(ix: Seq<(String, String)>, key: Seq<char>) -> Seq<char> {
    match name_lookup(ix, key, 0) {
        Some(v) => v,
        None => key,
    }
}

proof fn lemma_name_lookup_advance(ix: Seq<(String, String)>, key: Seq<char>, i: int)
    requires
        0 <= i <= ix.len(),
        forall|j: int| 0 <= j < i ==> (#[trigger] ix[j]).0@ != key,
    ensures
        name_lookup(ix, key, 0) == name_lookup(ix, key, i),
    decreases i,
{
    if i > 0 {
        lemma_name_lookup_advance(ix, key, i - 1);
    }
}

/// Resolve a channel's display name through the loaded index, falling
/// back to the raw id.
#[verifier::loop_isolation(false)]
fn display_name(ix: &Vec<(String, String)>, id: &String) -> (r: String)
    ensures
        r@ == display_name_spec(ix@, id@),
{
    let mut i: usize = 0;
    while i < ix.len()
        invariant
            i <= ix@.len(),
            forall|j: int| 0 <= j < i ==> (#[trigger] ix@[j]).0@ != id@,
        decreases ix@.len() - i,
    {
        if ix[i].0 == *id {
            proof {
                lemma_name_lookup_advance(ix@, id@, i as int);
            }
            return ix[i].1.clone();
        }
        i += 1;
    }
    proof {
        lemma_name_lookup_advance(ix@, id@, ix@.len() as int);
    }
    id.clone()
}

/// First participant other than the known user.
pub open spec fn counterpart_spec(rs: Seq<String>, uid: Seq<char>, i: int) -> Option<Seq<char>>
    decreases rs.len() - i,
{
    if i < 0 || i >= rs.len() {
        None
    } else if rs[i]@ != uid {
        Some(rs[i]@)
    } else {
        counterpart_spec(rs, uid, i + 1)
    }
}

proof fn lemma_counterpart_advance(rs: Seq<String>, uid: Seq<char>, i: int)
    requires
        0 <= i <= rs.len(),
        forall|j: int| 0 <= j < i ==> (#[trigger] rs[j])@ == uid,
    ensures
        counterpart_spec(rs, uid, 0) == counterpart_spec(rs, uid, i),
    decreases i,
{
    if i > 0 {
        lemma_counterpart_advance(rs, uid, i - 1);
    }
}

/// A resolved counterpart is never the user's own id.
proof fn lemma_counterpart_not_self(rs: Seq<String>, uid: Seq<char>, i: int, c: Seq<char>)
    requires
        0 <= i <= rs.len(),
        counterpart_spec(rs, uid, i) == Some(c),
    ensures
        c != uid,
    decreases rs.len() - i,
{
    if i < rs.len() && rs[i]@ == uid {
        lemma_counterpart_not_self(rs, uid, i + 1, c);
    }
}

/// Resolve the direct-message counterpart: the first participant whose
/// id is not the known user's own.
#[verifier::loop_isolation(false)]
fn find_counterpart(rs: &Vec<String>, uid: &String) -> (r: Option<String>)
    ensures
        r matches Some(c) ==> counterpart_spec(rs@, uid@, 0) == Some(c@),
        r is None ==> counterpart_spec(rs@, uid@, 0) is None,
{
    let mut i: usize = 0;
    while i < rs.len()
        invariant
            i <= rs@.len(),
            forall|j: int| 0 <= j < i ==> (#[trigger] rs@[j])@ == uid@,
        decreases rs@.len() - i,
    {
        if !(rs[i] == *uid) {
            proof {
                lemma_counterpart_advance(rs@, uid@, i as int);
            }
            return Some(rs[i].clone());
        }
        i += 1;
    }
    proof {
        lemma_counterpart_advance(rs@, uid@, rs@.len() as int);
    }
    None
}

/// The channel record the archive determines for one channel id under a
/// layout: the decoded metadata file at the id's directory.
pub open spec fn channel_record_at(
    a: Archive,
    root: Seq<char>,
    layout: Layout,
    id: Seq<char>,
) -> Option<crate::json::ChannelModel> {
    match a.text_of(crate::discover::meta_path(root, crate::discover::prefix_of(layout), id)) {
        Some(t) => match record_tree_of(t) {
            Some(tree) => crate::json::channel_of_tree(tree),
            None => None,
        },
        None => None,
    }
}

/// A reported thread is justified by a decoded channel record: under
/// some layout the archive yields a record with the thread's id, a
/// two-participant list, and the counterpart among the participants and
/// different from the user's own id.
pub open spec fn dm_pair_justified(
    a: Archive,
    root: Seq<char>,
    uid: Seq<char>,
    idv: Seq<char>,
    cv: Seq<char>,
) -> bool {
    exists|layout: Layout, id: Seq<char>|
        #[trigger] channel_record_at(a, root, layout, id) matches Some(cm) && cm.id == idv && (
        cm.recipients matches Some(rs) && rs.len() == 2 && (exists|j: int|
            0 <= j < rs.len() && rs[j] == cv) && cv != uid)
}

/// Every reported thread of the list is justified.
pub open spec fn dms_justified(
    a: Archive,
    root: Seq<char>,
    uid: Seq<char>,
    dms: Seq<TopDM>,
) -> bool {
    forall|i: int|
        0 <= i < dms.len() ==> dm_pair_justified(
            a,
            root,
            uid,
            (#[trigger] dms[i]).id@,
            dms[i].dm_user_id@,
        )
}

/// The text pairs of a name index.
pub open spec fn index_views(ix: Seq<(String, String)>) -> Seq<(Seq<char>, Seq<char>)> {
    ix.map(|i: int, e: (String, String)| (e.0@, e.1@))
}

/// First value recorded for `key` in a model index.
pub open spec fn model_lookup(iv: Seq<(Seq<char>, Seq<char>)>, key: Seq<char>, i: int) -> Option<
    Seq<char>,
>
    decreases iv.len() - i,
{
    if i < 0 || i >= iv.len() {
        None
    } else if iv[i].0 == key {
        Some(iv[i].1)
    } else {
        model_lookup(iv, key, i + 1)
    }
}

/// The display name a model index determines: its entry, or the raw id.
pub open spec fn display_name_model(iv: Seq<(Seq<char>, Seq<char>)>, key: Seq<char>) -> Seq<char> {
    match model_lookup(iv, key, 0) {
        Some(v) => v,
        None => key,
    }
}

/// The executable index lookup agrees with the model lookup.
proof fn lemma_lookup_views(ix: Seq<(String, String)>, key: Seq<char>, i: int)
    requires
        0 <= i <= ix.len(),
    ensures
        name_lookup(ix, key, i) == model_lookup(index_views(ix), key, i),
    decreases ix.len() - i,
{
    if i < ix.len() {
        assert(index_views(ix)[i] == (ix[i].0@, ix[i].1@));
        if ix[i].0@ != key {
            lemma_lookup_views(ix, key, i + 1);
        }
    }
}

/// A reported community channel is justified by a decoded channel
/// record: under some layout the archive yields a record that is not a
/// two-participant thread, carries the reported guild name, and whose
/// display name resolves through the index with raw-id fallback.
pub open spec fn channel_entry_justified(
    a: Archive,
    root: Seq<char>,
    iv: Seq<(Seq<char>, Seq<char>)>,
    name: Seq<char>,
    gname: Seq<char>,
) -> bool {
    exists|layout: Layout, id: Seq<char>|
        #[trigger] channel_record_at(a, root, layout, id) matches Some(cm) && !(cm.recipients
            matches Some(rs) && rs.len() == 2) && (cm.guild matches Some(g) && g == gname) && name
            == display_name_model(iv, cm.id)
}

/// Every reported community channel of the list is justified.
pub open spec fn channels_justified(
    a: Archive,
    root: Seq<char>,
    iv: Seq<(Seq<char>, Seq<char>)>,
    chs: Seq<TopChannel>,
) -> bool {
    forall|i: int|
        0 <= i < chs.len() ==> ((#[trigger] chs[i]).guild_name matches Some(g)
            && channel_entry_justified(a, root, iv, chs[i].name@, g@))
}

/// A resolved counterpart is one of the participants.
proof fn lemma_counterpart_member(rs: Seq<String>, uid: Seq<char>, i: int, c: Seq<char>)
    requires
        0 <= i <= rs.len(),
        counterpart_spec(rs, uid, i) == Some(c),
    ensures
        exists|j: int| i <= j < rs.len() && (#[trigger] rs[j])@ == c,
    decreases rs.len() - i,
{
    if i < rs.len() {
        if rs[i]@ != uid {
            assert(rs[i]@ == c);
        } else {
            lemma_counterpart_member(rs, uid, i + 1, c);
            let j = choose|j: int| i + 1 <= j < rs.len() && (#[trigger] rs[j])@ == c;
            assert(i <= j < rs.len() && rs[j]@ == c);
        }
    }
}

/// A 24-bucket all-zero histogram.
pub open spec fn zeros24() -> Seq<usize> {
    Seq::new(24, |i: int| 0usize)
}

/// The aggregates of a result snapshot are explained by some tally lists
/// and some retained-message sequence.
pub open spec fn aggregates_witness(
    d: ExtractedData,
    chs: Seq<ChannelTally>,
    dms: Seq<DmTally>,
    msgs: Seq<ParsedMessage>,
) -> bool {
    &&& d.channel_count == chs.len()
    &&& d.dm_channel_count == dms.len()
    &&& d.message_count as int == sat_fold(sat_fold(0, channel_counts(chs)), dm_counts(dms))
    &&& d.hours_values@ == fold_hist(zeros24(), msgs)
    &&& d.character_count as int == fold_chars(0, msgs)
    &&& is_top_channels(chs, d.top_channels@)
    &&& is_top_dms(dms, d.top_dms@)
    &&& is_favorite_words(fold_tallies(Seq::empty(), msgs), d.favorite_words@)
}

/// Some run over tallied channels and retained messages explains every
/// aggregate of the snapshot.
pub open spec fn channel_aggregates(d: ExtractedData) -> bool {
    exists|chs: Seq<ChannelTally>, dms: Seq<DmTally>, msgs: Seq<ParsedMessage>|
        aggregates_witness(d, chs, dms, msgs)
}

/// Every reported favorite word is longer than five bytes.
pub open spec fn favorites_long(r: Seq<FavoriteWord>) -> bool {
    forall|i: int| 0 <= i < r.len() ==> byte_len((#[trigger] r[i]).word@) > 5
}

/// No reported thread names the user's own id as its counterpart.
pub open spec fn dm_ids_not_self(dms: Seq<TopDM>, uid: Seq<char>) -> bool {
    forall|i: int| 0 <= i < dms.len() ==> (#[trigger] dms[i]).dm_user_id@ != uid
}

/// "Found N channels to process"
fn found_channels_message(n: usize) -> String {
    let mut m = "Found ".to_owned();
    push_u64(&mut m, n as u64);
    m.append(" channels to process");
    m
}

/// "Processing channel I of N (ID: ...)"
fn progress_channel_message(index: usize, total: usize, id: &String) -> (r: String)
    requires
        index < total,
{
    let mut m = "Processing channel ".to_owned();
    push_u64(&mut m, (index as u64) + 1);
    m.append(" of ");
    push_u64(&mut m, total as u64);
    m.append(" (ID: ");
    m.append(id.as_str());
    m.append(")");
    m
}

/// Discover the channels, classify each, and fold every retained message
/// into the aggregates of the snapshot. A channel whose metadata or
/// message file is missing or undecodable contributes nothing.
#[verifier::loop_isolation(false)]
fn process_channels<S: ProgressSink>(
    archive: &Archive,
    data: &mut ExtractedData,
    messages_root: &String,
    name_index: &Vec<(String, String)>,
    sink: &mut S,
)
    requires
        old(data).hours_values@.len() == 24,
    ensures
        final(data).hours_values@.len() == 24,
        final(data).top_channels@.len() <= 10,
        final(data).top_dms@.len() <= 10,
        final(data).favorite_words@.len() <= 10,
        favorites_long(final(data).favorite_words@),
        channel_aggregates(*final(data)),
        old(data).user is None ==> final(data).dm_channel_count == 0
            && final(data).top_dms@.len() == 0,
        old(data).user matches Some(u) ==> dm_ids_not_self(final(data).top_dms@, u.id@),
        old(data).user matches Some(u) ==> dms_justified(
            *archive,
            messages_root@,
            u.id@,
            final(data).top_dms@,
        ),
        channels_justified(
            *archive,
            messages_root@,
            index_views(name_index@),
            final(data).top_channels@,
        ),
        final(data).user == old(data).user,
        final(data).payments == old(data).payments,
        final(data).guild_count == old(data).guild_count,
        final(data).open_count == old(data).open_count,
        final(data).average_open_count_per_day == old(data).average_open_count_per_day,
        final(data).notification_count == old(data).notification_count,
        final(data).join_voice_channel_count == old(data).join_voice_channel_count,
        final(data).join_call_count == old(data).join_call_count,
        final(data).add_reaction_count == old(data).add_reaction_count,
        final(data).message_edited_count == old(data).message_edited_count,
        final(data).sent_message_count == old(data).sent_message_count,
        final(data).average_message_count_per_day == old(data).average_message_count_per_day,
        final(data).slash_command_used_count == old(data).slash_command_used_count,
{
    let names = archive.names();
    let ids = find_channel_ids(&names, messages_root);
    sink.emit(found_channels_message(ids.len()));
    let layout = detect_layout(archive, messages_root, &ids);
    let user_id: Option<String> = match &data.user {
        Some(u) => Some(u.id.clone()),
        None => None,
    };
    proof {
        assert(user_id is None <==> old(data).user is None);
    }
    let mut stats = RunningStats::new();
    let mut chs: Vec<ChannelTally> = Vec::new();
    let mut dms: Vec<DmTally> = Vec::new();
    let ghost mut all_msgs: Seq<ParsedMessage> = Seq::empty();
    let total = ids.len();
    let step = total / 10 + 1;
    let mut index: usize = 0;
    while index < total
        invariant
            total == ids@.len(),
            step == total / 10 + 1,
            index <= total,
            stats.wf(),
            stats.character_count as int == fold_chars(0, all_msgs),
            stats.hours@ == fold_hist(zeros24(), all_msgs),
            tally_views(stats.words@) == fold_tallies(Seq::empty(), all_msgs),
            data == old(data),
            user_id is None <==> old(data).user is None,
            user_id matches Some(su) ==> (old(data).user matches Some(u) && su@ == u.id@),
            user_id is None ==> dms@.len() == 0,
            user_id matches Some(su) ==> (forall|k: int|
                0 <= k < dms@.len() ==> (#[trigger] dms@[k]).dm_user_id@ != su@),
            user_id matches Some(su) ==> (forall|k: int|
                0 <= k < dms@.len() ==> dm_pair_justified(
                    *archive,
                    messages_root@,
                    su@,
                    (#[trigger] dms@[k]).id@,
                    dms@[k].dm_user_id@,
                )),
            forall|k: int|
                0 <= k < chs@.len() ==> channel_entry_justified(
                    *archive,
                    messages_root@,
                    index_views(name_index@),
                    (#[trigger] chs@[k]).name@,
                    chs@[k].guild_name@,
                ),
        decreases total - index,
    {
        if index % step == 0 {
            sink.emit(progress_channel_message(index, total, &ids[index]));
        }
        let meta_path = build_meta_path(messages_root, layout, &ids[index]);
        let msgs_path = build_msgs_path(messages_root, layout, &ids[index]);
        let meta_text = archive.read_text(meta_path.as_str());
        let msgs_text = archive.read_text(msgs_path.as_str());
        match (meta_text, msgs_text) {
            (Some(meta), Some(raw)) => {
                let channel = match parse_json(meta.as_str()) {
                    Ok(v) => channel_from_value(&v),
                    Err(_) => None,
                };
                match channel {
                    Some(channel) => {
                        let msgs: Vec<ParsedMessage> = if layout.csv_messages {
                            match parse_csv(raw.as_str()) {
                                Ok(m) => m,
                                Err(_) => Vec::new(),
                            }
                        } else {
                            match parse_json_messages(raw.as_str()) {
                                Ok(m) => m,
                                Err(_) => Vec::new(),
                            }
                        };
                        fold_messages(&mut stats, &msgs);
                        proof {
                            crate::stats::lemma_fold_concat(
                                0,
                                zeros24(),
                                Seq::empty(),
                                all_msgs,
                                msgs@,
                            );
                            all_msgs = all_msgs + msgs@;
                        }
                        let is_dm = match &channel.recipients {
                            Some(r) => r.len() == 2,
                            None => false,
                        };
                        if is_dm {
                            let counterpart: Option<String> = match (
                                &channel.recipients,
                                &user_id,
                            ) {
                                (Some(rs), Some(uid)) => find_counterpart(rs, uid),
                                _ => None,
                            };
                            match counterpart {
                                Some(dm_id) => {
                                    proof {
                                        if let (Some(rs), Some(uid)) = (
                                            channel.recipients,
                                            &user_id,
                                        ) {
                                            lemma_counterpart_not_self(rs@, uid@, 0, dm_id@);
                                            lemma_counterpart_member(rs@, uid@, 0, dm_id@);
                                            assert(channel_record_at(
                                                *archive,
                                                messages_root@,
                                                layout,
                                                ids@[index as int]@,
                                            ) matches Some(cm) && cm.id == channel.id@ && (
                                            cm.recipients matches Some(crs) && crs.len() == 2 && (
                                            exists|j: int|
                                                0 <= j < crs.len() && crs[j] == dm_id@)
                                                && dm_id@ != uid@));
                                            assert(dm_pair_justified(
                                                *archive,
                                                messages_root@,
                                                uid@,
                                                channel.id@,
                                                dm_id@,
                                            ));
                                        }
                                    }
                                    dms.push(
                                        DmTally {
                                            id: channel.id.clone(),
                                            dm_user_id: dm_id,
                                            count: msgs.len(),
                                        },
                                    );
                                },
                                None => {},
                            }
                        } else {
                            match &channel.guild {
                                Some(guild) => {
                                    let name = display_name(name_index, &channel.id);
                                    proof {
                                        lemma_lookup_views(name_index@, channel.id@, 0);
                                        assert(channel_record_at(
                                            *archive,
                                            messages_root@,
                                            layout,
                                            ids@[index as int]@,
                                        ) matches Some(cm) && !(cm.recipients matches Some(rs)
                                            && rs.len() == 2) && (cm.guild matches Some(g) && g
                                            == guild.name@) && name@ == display_name_model(
                                            index_views(name_index@),
                                            cm.id,
                                        ));
                                        assert(channel_entry_justified(
                                            *archive,
                                            messages_root@,
                                            index_views(name_index@),
                                            name@,
                                            guild.name@,
                                        ));
                                    }
                                    chs.push(
                                        ChannelTally {
                                            name,
                                            guild_name: guild.name.clone(),
                                            count: msgs.len(),
                                        },
                                    );
                                },
                                None => {},
                            }
                        }
                    },
                    None => {},
                }
            },
            _ => {},
        }
        index += 1;
    }
    data.channel_count = chs.len();
    data.dm_channel_count = dms.len();
    let mut ch_counts: Vec<usize> = Vec::new();
    let mut i: usize = 0;
    while i < chs.len()
        invariant
            i <= chs@.len(),
            ch_counts@.len() == i,
            forall|k: int| 0 <= k < i ==> #[trigger] ch_counts@[k] == chs@[k].count,
        decreases chs@.len() - i,
    {
        ch_counts.push(chs[i].count);
        i += 1;
    }
    let mut dm_count_v: Vec<usize> = Vec::new();
    let mut i2: usize = 0;
    while i2 < dms.len()
        invariant
            i2 <= dms@.len(),
            dm_count_v@.len() == i2,
            forall|k: int| 0 <= k < i2 ==> #[trigger] dm_count_v@[k] == dms@[k].count,
        decreases dms@.len() - i2,
    {
        dm_count_v.push(dms[i2].count);
        i2 += 1;
    }
    proof {
        assert(ch_counts@ =~= channel_counts(chs@));
        assert(dm_count_v@ =~= dm_counts(dms@));
    }
    data.message_count = sat_sum(sat_sum(0, &ch_counts), &dm_count_v);
    data.character_count = stats.character_count;
    data.hours_values = stats.hours;
    data.top_channels = top_channels_of(&chs);
    data.top_dms = top_dms_of(&dms);
    data.favorite_words = favorite_words_of(&stats.words);
    proof {
        assert(aggregates_witness(*data, chs@, dms@, all_msgs));
        assert(channel_aggregates(*data));
        {
            let tops = data.top_channels@;
            let ghost cpos = choose|pos: Seq<usize>|
                #[trigger] is_top_selection(channel_counts(chs@), pos, 10) && matches_channels(
                    chs@,
                    pos,
                    tops,
                );
            assert forall|i: int| 0 <= i < tops.len() implies (#[trigger] tops[i]).guild_name
                matches Some(g) && channel_entry_justified(
                *archive,
                messages_root@,
                index_views(name_index@),
                tops[i].name@,
                g@,
            ) by {
                assert(tops[i].name@ == chs@[cpos[i] as int].name@);
                match tops[i].guild_name {
                    Some(g) => {
                        assert(g@ == chs@[cpos[i] as int].guild_name@);
                    },
                    None => {},
                }
            }
        }
        match old(data).user {
            Some(u) => {
                let tops = data.top_dms@;
                let ghost dpos = choose|pos: Seq<usize>|
                    #[trigger] is_top_selection(dm_counts(dms@), pos, 10) && matches_dms(
                        dms@,
                        pos,
                        tops,
                    );
                assert forall|i: int| 0 <= i < tops.len() implies dm_pair_justified(
                    *archive,
                    messages_root@,
                    u.id@,
                    (#[trigger] tops[i]).id@,
                    tops[i].dm_user_id@,
                ) by {
                    assert(tops[i].id@ == dms@[dpos[i] as int].id@);
                    assert(tops[i].dm_user_id@ == dms@[dpos[i] as int].dm_user_id@);
                }
            let pos = choose|pos: Seq<usize>|
                #[trigger] is_top_selection(dm_counts(dms@), pos, 10) && matches_dms(
                    dms@,
                    pos,
                    tops,
                );
                assert forall|i: int| 0 <= i < tops.len() implies (
                #[trigger] tops[i]).dm_user_id@ != u.id@ by {
                    assert(tops[i].dm_user_id@ == dms@[pos[i] as int].dm_user_id@);
                }
            },
            None => {},
        }
    }
}

/// The names hold an analytics events file.
pub open spec fn has_analytics_file(names: Seq<Seq<char>>) -> bool {
    exists|i: int| 0 <= i < names.len() && is_analytics_path(#[trigger] names[i])
}

/// Entry names of the archive.
pub open spec fn entry_names(a: Archive) -> Seq<Seq<char>> {
    a.entries@.map(|i: int, e: ArchiveEntry| e.name@)
}

/// The reserved richer statistics are populated with zero.
pub open spec fn analytics_zeroed(d: ExtractedData) -> bool {
    &&& d.open_count == Some(0usize)
    &&& d.notification_count == Some(0usize)
    &&& d.join_voice_channel_count == Some(0usize)
    &&& d.join_call_count == Some(0usize)
    &&& d.add_reaction_count == Some(0usize)
    &&& d.message_edited_count == Some(0usize)
    &&& d.sent_message_count == Some(0usize)
    &&& d.slash_command_used_count == Some(0usize)
}

/// Where an analytics events file is present, the reserved richer
/// statistics are populated with zero; where it is absent they stay
/// unset.
#[verifier::loop_isolation(false)]
fn process_analytics(names: &Vec<String>, data: &mut ExtractedData)
    ensures
        has_analytics_file(names@.map(|i: int, s: String| s@)) ==> analytics_zeroed(*final(data)),
        !has_analytics_file(names@.map(|i: int, s: String| s@)) ==> *final(data) == *old(data),
        final(data).user == old(data).user,
        final(data).payments == old(data).payments,
        final(data).guild_count == old(data).guild_count,
        final(data).hours_values == old(data).hours_values,
        final(data).top_channels == old(data).top_channels,
        final(data).top_dms == old(data).top_dms,
        final(data).favorite_words == old(data).favorite_words,
        final(data).channel_count == old(data).channel_count,
        final(data).dm_channel_count == old(data).dm_channel_count,
        final(data).message_count == old(data).message_count,
        final(data).character_count == old(data).character_count,
        final(data).average_open_count_per_day == old(data).average_open_count_per_day,
        final(data).average_message_count_per_day == old(data).average_message_count_per_day,
{
    let ghost nameviews = names@.map(|i: int, s: String| s@);
    let head = chars_of("analytics/events-");
    let mid = chars_of("-of-");
    let tail = chars_of(".json");
    let mut i: usize = 0;
    while i < names.len()
        invariant
            i <= names@.len(),
            head@ == "analytics/events-"@,
            mid@ == "-of-"@,
            tail@ == ".json"@,
            data == old(data),
            forall|j: int| 0 <= j < i ==> !is_analytics_path(#[trigger] nameviews[j]),
        decreases names@.len() - i,
    {
        let cs = chars_of(names[i].as_str());
        if crate::patterns::is_analytics_file(&cs, &head, &mid, &tail) {
            data.open_count = Some(0);
            data.notification_count = Some(0);
            data.join_voice_channel_count = Some(0);
            data.join_call_count = Some(0);
            data.add_reaction_count = Some(0);
            data.message_edited_count = Some(0);
            data.sent_message_count = Some(0);
            data.slash_command_used_count = Some(0);
            proof {
                assert(is_analytics_path(nameviews[i as int]));
                assert(has_analytics_file(nameviews));
            }
            return ;
        }
        i += 1;
    }
}

/// The archive holds an analytics events file.
pub open spec fn archive_has_analytics(a: Archive) -> bool {
    has_analytics_file(entry_names(a))
}

/// The reserved richer statistics are unpopulated, as distinct from zero.
pub open spec fn analytics_unset(d: ExtractedData) -> bool {
    &&& d.open_count is None
    &&& d.notification_count is None
    &&& d.join_voice_channel_count is None
    &&& d.join_call_count is None
    &&& d.add_reaction_count is None
    &&& d.message_edited_count is None
    &&& d.sent_message_count is None
    &&& d.slash_command_used_count is None
    &&& d.average_open_count_per_day is None
    &&& d.average_message_count_per_day is None
}

/// The message root sits at entry `i`: the first channel-probe match,
/// cut at the separator that opens the id segment.
pub open spec fn archive_message_root_at(a: Archive, i: int, root: Seq<char>) -> bool {
    let names = entry_names(a);
    &&& 0 <= i < names.len()
    &&& forall|j: int| 0 <= j < i ==> probe_cut(#[trigger] names[j], "/channel.json"@, true) is None
    &&& match probe_cut(names[i], "/channel.json"@, true) {
        Some(cut) => root == names[i].subrange(0, cut),
        None => false,
    }
}

/// The archive determines `root` as its message root.
pub open spec fn archive_message_root(a: Archive, root: Seq<char>) -> bool {
    exists|i: int| archive_message_root_at(a, i, root)
}

/// The archive determines at most one message root.
proof fn lemma_message_root_unique(a: Archive, r1: Seq<char>, r2: Seq<char>)
    requires
        archive_message_root(a, r1),
        archive_message_root(a, r2),
    ensures
        r1 == r2,
{
    let i = choose|i: int| archive_message_root_at(a, i, r1);
    let j = choose|j: int| archive_message_root_at(a, j, r2);
    if i < j {
        assert(probe_cut(entry_names(a)[i], "/channel.json"@, true) is None);
    }
    if j < i {
        assert(probe_cut(entry_names(a)[j], "/channel.json"@, true) is None);
    }
}

/// A message root found over the name list is the archive's message
/// root.
proof fn lemma_message_root_bridge(a: Archive, names: Seq<String>, root: Seq<char>)
    requires
        names.len() == entry_names(a).len(),
        forall|i: int| 0 <= i < names.len() ==> (#[trigger] names[i])@ == entry_names(a)[i],
        crate::discover::probe_root_found(names, "/channel.json"@, true, root),
    ensures
        archive_message_root(a, root),
{
    let i = choose|i: int| crate::discover::probe_found_at(names, "/channel.json"@, true, i, root);
    assert(archive_message_root_at(a, i, root)) by {
        assert(names[i]@ == entry_names(a)[i]);
        assert forall|j: int| 0 <= j < i implies probe_cut(
            #[trigger] entry_names(a)[j],
            "/channel.json"@,
            true,
        ) is None by {
            assert(names[j]@ == entry_names(a)[j]);
        }
    }
}

/// The user root sits at entry `i`: the first user-probe match, cut to
/// its top-level name.
pub open spec fn archive_user_root_at(a: Archive, i: int, root: Seq<char>) -> bool {
    let names = entry_names(a);
    &&& 0 <= i < names.len()
    &&& forall|j: int| 0 <= j < i ==> !is_user_probe(#[trigger] names[j])
    &&& is_user_probe(names[i])
    &&& root == names[i].subrange(0, names[i].len() - "/user.json"@.len())
}

/// The archive determines `root` as its user root.
pub open spec fn archive_user_root(a: Archive, root: Seq<char>) -> bool {
    exists|i: int| archive_user_root_at(a, i, root)
}

/// The server root sits at entry `i`: the first guild-probe match, cut
/// at the separator that opens the id segment.
pub open spec fn archive_server_root_at(a: Archive, i: int, root: Seq<char>) -> bool {
    let names = entry_names(a);
    &&& 0 <= i < names.len()
    &&& forall|j: int| 0 <= j < i ==> probe_cut(#[trigger] names[j], "/guild.json"@, false) is None
    &&& match probe_cut(names[i], "/guild.json"@, false) {
        Some(cut) => root == names[i].subrange(0, cut),
        None => false,
    }
}

/// The archive determines `root` as its server root.
pub open spec fn archive_server_root(a: Archive, root: Seq<char>) -> bool {
    exists|i: int| archive_server_root_at(a, i, root)
}

/// The archive determines at most one user root.
proof fn lemma_user_root_unique(a: Archive, r1: Seq<char>, r2: Seq<char>)
    requires
        archive_user_root(a, r1),
        archive_user_root(a, r2),
    ensures
        r1 == r2,
{
    let i = choose|i: int| archive_user_root_at(a, i, r1);
    let j = choose|j: int| archive_user_root_at(a, j, r2);
    if i < j {
        assert(!is_user_probe(entry_names(a)[i]));
    }
    if j < i {
        assert(!is_user_probe(entry_names(a)[j]));
    }
}

/// The archive determines at most one server root.
proof fn lemma_server_root_unique(a: Archive, r1: Seq<char>, r2: Seq<char>)
    requires
        archive_server_root(a, r1),
        archive_server_root(a, r2),
    ensures
        r1 == r2,
{
    let i = choose|i: int| archive_server_root_at(a, i, r1);
    let j = choose|j: int| archive_server_root_at(a, j, r2);
    if i < j {
        assert(probe_cut(entry_names(a)[i], "/guild.json"@, false) is None);
    }
    if j < i {
        assert(probe_cut(entry_names(a)[j], "/guild.json"@, false) is None);
    }
}

/// A user root found over the name list is the archive's user root.
proof fn lemma_user_root_bridge(a: Archive, names: Seq<String>, root: Seq<char>)
    requires
        names.len() == entry_names(a).len(),
        forall|i: int| 0 <= i < names.len() ==> (#[trigger] names[i])@ == entry_names(a)[i],
        crate::discover::user_root_found(names, root),
    ensures
        archive_user_root(a, root),
{
    let i = choose|i: int| crate::discover::user_found_at(names, i, root);
    assert(archive_user_root_at(a, i, root)) by {
        assert(names[i]@ == entry_names(a)[i]);
        assert forall|j: int| 0 <= j < i implies !is_user_probe(
            #[trigger] entry_names(a)[j],
        ) by {
            assert(names[j]@ == entry_names(a)[j]);
        }
    }
}

/// A server root found over the name list is the archive's server root.
proof fn lemma_server_root_bridge(a: Archive, names: Seq<String>, root: Seq<char>)
    requires
        names.len() == entry_names(a).len(),
        forall|i: int| 0 <= i < names.len() ==> (#[trigger] names[i])@ == entry_names(a)[i],
        crate::discover::probe_root_found(names, "/guild.json"@, false, root),
    ensures
        archive_server_root(a, root),
{
    let i = choose|i: int| crate::discover::probe_found_at(names, "/guild.json"@, false, i, root);
    assert(archive_server_root_at(a, i, root)) by {
        assert(names[i]@ == entry_names(a)[i]);
        assert forall|j: int| 0 <= j < i implies probe_cut(
            #[trigger] entry_names(a)[j],
            "/guild.json"@,
            false,
        ) is None by {
            assert(names[j]@ == entry_names(a)[j]);
        }
    }
}

/// The payment summary and the identity fields cohere with the stored
/// user: no user means the summary stays unpopulated; a stored user
/// carries the resolved identity (or its placeholder), the computed
/// default-avatar reference, and exactly its own payments, totalled and
/// rendered.
pub open spec fn user_summary_link(d: ExtractedData, identity: Option<UserData>) -> bool {
    &&& (d.user is None ==> d.payments.total@.len() == 0 && d.payments.list@.len() == 0)
    &&& (d.user matches Some(u) ==> ({
        &&& total_views(d.payments.total@) == fold_totals(
            Seq::<(Seq<char>, int)>::empty(),
            u.payments@,
        )
        &&& (is_rendered_history(u.payments@, d.payments.list@) || (confirmed_of(u.payments@).len()
            == 0 && d.payments.list@.len() == 0))
        &&& (u.default_avatar_url matches Some(url) && url@ == default_avatar_url(
            u.id@,
            u.discriminator,
        ))
        &&& match identity {
            Some(f) => u.username@ == f.username@ && u.discriminator == f.discriminator,
            None => u.username@ == "Unknown"@ && u.discriminator == 0,
        }
    }))
}

/// A stored user carries the decoded record's own fields: its id and
/// its payments. (The display identity comes from the resolution
/// collaborator and the avatar from the archive probes.)
pub open spec fn stored_user_matches(u: User, um: UserModel) -> bool {
    &&& u.id@ == um.id
    &&& u.payments@.len() == um.payments.len()
    &&& forall|i: int|
        0 <= i < um.payments.len() ==> payment_matches(#[trigger] u.payments@[i], um.payments[i])
}

/// What a snapshot owes at the archive's user root: the user feature is
/// populated exactly when the user record file is present and decodes
/// as a user record, and then carries that record's id and payments; a
/// stored user's avatar is exactly the archive's probe result.
pub open spec fn user_root_link(a: Archive, d: ExtractedData, uroot: Seq<char>) -> bool {
    &&& (match a.text_of(uroot + "/user.json"@) {
        None => d.user is None,
        Some(t) => match record_tree_of(t) {
            None => d.user is None,
            Some(tree) => match user_of_tree(tree) {
                Some(um) => (d.user matches Some(u) && stored_user_matches(u, um)),
                None => d.user is None,
            },
        },
    })
    &&& (d.user matches Some(u) ==> (match u.avatar {
        Some(b) => avatar_of(a, uroot) == Some(b@),
        None => avatar_of(a, uroot) is None,
    }))
}

/// What a snapshot owes at the archive's server root: the guild count is
/// the size of the decoded guild index, and zero where the index file is
/// missing, empty, or does not decode as a map of names.
pub open spec fn guild_root_link(a: Archive, d: ExtractedData, sroot: Seq<char>) -> bool {
    match a.text_of(sroot + "/index.json"@) {
        None => d.guild_count == 0,
        Some(t) => match record_tree_of(t) {
            None => d.guild_count == 0,
            Some(tree) => match string_map_of_tree(tree) {
                Some(pairs) => d.guild_count == pairs.len(),
                None => d.guild_count == 0,
            },
        },
    }
}

/// The name index the archive determines at a message root: the decoded
/// pairs of its index file, or empty where the file is missing or does
/// not decode as a map of names.
pub open spec fn archive_name_index(a: Archive, mroot: Seq<char>) -> Seq<(Seq<char>, Seq<char>)> {
    match a.text_of(mroot + "/index.json"@) {
        Some(t) => match record_tree_of(t) {
            Some(tree) => match string_map_of_tree(tree) {
                Some(pairs) => pairs,
                None => Seq::empty(),
            },
            None => Seq::empty(),
        },
        None => Seq::empty(),
    }
}

/// The archive lacks the message-root marker.
pub open spec fn lacks_message_marker(a: Archive) -> bool {
    forall|i: int|
        0 <= i < entry_names(a).len() ==> probe_cut(
            #[trigger] entry_names(a)[i],
            "/channel.json"@,
            true,
        ) is None
}

/// The archive lacks the server-root marker.
pub open spec fn lacks_server_marker(a: Archive) -> bool {
    forall|i: int|
        0 <= i < entry_names(a).len() ==> probe_cut(
            #[trigger] entry_names(a)[i],
            "/guild.json"@,
            false,
        ) is None
}

/// The archive lacks the user-root marker.
pub open spec fn lacks_user_marker(a: Archive) -> bool {
    forall|i: int|
        0 <= i < entry_names(a).len() ==> !is_user_probe(#[trigger] entry_names(a)[i])
}

/// The extraction engine.
pub struct Parser {}

impl Parser {
    pub fn new() -> (r: Parser) {
        Parser {  }
    }

    /// Decode a JSON message set with the array-or-single-object
    /// fallback; see `messages::parse_json_messages`.
    pub fn parse_json_messages(&self, content: &str) -> (r: Result<Vec<ParsedMessage>, RecordError>)
        ensures
            match crate::messages::message_set_of(content@) {
                Some(ms) => r matches Ok(ps) && crate::messages::parsed_model_match(ps@, ms),
                None => r is Err,
            },
            r matches Ok(ps) ==> crate::messages::is_parsed_output(ps@),
    {
        parse_json_messages(content)
    }

    /// The deterministic default-avatar reference for a user.
    pub fn get_default_avatar_url(&self, user_id: &str, discriminator: u16) -> (r: String)
        ensures
            r@ == default_avatar_url(user_id@, discriminator),
    {
        compute_default_avatar_url(user_id, discriminator)
    }

    /// Run the whole extraction over an archive: discover the three
    /// structural roots (aborting on any missing one before any channel
    /// is read), load the user and payments, process every channel,
    /// count guilds, probe analytics, and return the one immutable
    /// snapshot.
    #[verifier::rlimit(60)]
    pub fn extract_data<S: ProgressSink>(
        &self,
        archive: &Archive,
        identity: Option<UserData>,
        sink: &mut S,
    ) -> (r: Result<ExtractedData, StructuralError>)
        ensures
            lacks_message_marker(*archive) ==> r == Result::<ExtractedData, StructuralError>::Err(
                StructuralError::MissingMessageRoot,
            ),
            !lacks_message_marker(*archive) && lacks_server_marker(*archive) ==> r
                == Result::<ExtractedData, StructuralError>::Err(StructuralError::MissingServerRoot),
            !lacks_message_marker(*archive) && !lacks_server_marker(*archive) && lacks_user_marker(
                *archive,
            ) ==> r == Result::<ExtractedData, StructuralError>::Err(
                StructuralError::MissingUserRoot,
            ),
            !lacks_message_marker(*archive) && !lacks_server_marker(*archive)
                && !lacks_user_marker(*archive) ==> r is Ok,
            r matches Ok(d) ==> d.hours_values@.len() == 24 && d.top_channels@.len() <= 10
                && d.top_dms@.len() <= 10 && d.favorite_words@.len() <= 10 && favorites_long(
                d.favorite_words@,
            ) && channel_aggregates(d),
            r matches Ok(d) ==> (if archive_has_analytics(*archive) {
                analytics_zeroed(d)
            } else {
                analytics_unset(d)
            }),
            r matches Ok(d) ==> user_summary_link(d, identity),
            r matches Ok(d) ==> (d.user is None ==> d.dm_channel_count == 0 && d.top_dms@.len()
                == 0),
            r matches Ok(d) ==> (d.user matches Some(u) ==> dm_ids_not_self(d.top_dms@, u.id@)),
            r matches Ok(d) ==> (d.user matches Some(u) ==> forall|mr: Seq<char>|
                archive_message_root(*archive, mr) ==> dms_justified(*archive, mr, u.id@, d.top_dms@)),
            r matches Ok(d) ==> forall|mr: Seq<char>|
                archive_message_root(*archive, mr) ==> channels_justified(
                    *archive,
                    mr,
                    archive_name_index(*archive, mr),
                    d.top_channels@,
                ),
            r matches Ok(d) ==> forall|u: Seq<char>|
                archive_user_root(*archive, u) ==> user_root_link(*archive, d, u),
            r matches Ok(d) ==> forall|sr: Seq<char>|
                archive_server_root(*archive, sr) ==> guild_root_link(*archive, d, sr),
    {
        let ghost id0 = identity;
        let mut data = ExtractedData::default();
        sink.emit("Analyzing package structure...".to_owned());
        let names = archive.names();
        proof {
            assert forall|i: int| 0 <= i < names@.len() implies #[trigger] names@[i]@
                == entry_names(*archive)[i] by {}
        }
        let messages_root = match get_messages_root(&names) {
            Ok(root) => root,
            Err(e) => {
                proof {
                    lemma_marker_no_probe(*archive, names@);
                }
                return Err(e);
            },
        };
        let servers_root = match get_servers_root(&names) {
            Ok(root) => root,
            Err(e) => {
                proof {
                    lemma_marker_no_probe(*archive, names@);
                    assert(!lacks_message_marker(*archive)) by {
                        lemma_found_means_marker(*archive, names@);
                    }
                }
                return Err(e);
            },
        };
        let user_root = match get_user_root(&names) {
            Ok(root) => root,
            Err(e) => {
                proof {
                    lemma_marker_no_probe(*archive, names@);
                    lemma_found_means_marker(*archive, names@);
                }
                return Err(e);
            },
        };
        proof {
            lemma_found_means_marker(*archive, names@);
            lemma_user_root_bridge(*archive, names@, user_root@);
            lemma_server_root_bridge(*archive, names@, servers_root@);
            lemma_message_root_bridge(*archive, names@, messages_root@);
        }
        sink.emit("Loading user information...".to_owned());
        let user_path = concat3(user_root.as_str(), "/", "user.json");
        proof {
            reveal_strlit("/");
            reveal_strlit("user.json");
            reveal_strlit("/user.json");
            assert(user_path@ =~= user_root@ + "/user.json"@);
        }
        match archive.read_text(user_path.as_str()) {
            Some(content) => {
                match parse_json(content.as_str()) {
                    Ok(v) => {
                        match user_from_value(&v) {
                            Some(mut user) => {
                                let fetched = resolve_identity(identity);
                                user.username = fetched.username;
                                user.discriminator = fetched.discriminator;
                                user.avatar = load_user_avatar(archive, &user_root);
                                user.default_avatar_url = Some(
                                    compute_default_avatar_url(
                                        user.id.as_str(),
                                        user.discriminator,
                                    ),
                                );
                                process_payments(&mut data.payments, &user);
                                data.user = Some(user);
                            },
                            None => {},
                        }
                    },
                    Err(_) => {},
                }
            },
            None => {},
        }
        proof {
            assert(user_root_link(*archive, data, user_root@));
            assert(user_summary_link(data, id0));
        }
        sink.emit("Loading messages index...".to_owned());
        let index_path = concat3(messages_root.as_str(), "/", "index.json");
        proof {
            reveal_strlit("/");
            reveal_strlit("index.json");
            reveal_strlit("/index.json");
            assert(index_path@ =~= messages_root@ + "/index.json"@);
        }
        let name_index: Vec<(String, String)> = match archive.read_text(index_path.as_str()) {
            Some(content) => match parse_json(content.as_str()) {
                Ok(v) => match string_map_entries(&v) {
                    Some(entries) => entries,
                    None => Vec::new(),
                },
                Err(_) => Vec::new(),
            },
            None => Vec::new(),
        };
        proof {
            assert(index_views(name_index@) =~~= archive_name_index(*archive, messages_root@));
        }
        sink.emit("Processing channels and messages...".to_owned());
        process_channels(archive, &mut data, &messages_root, &name_index, sink);
        let ghost dpre = data;
        sink.emit("Loading guild information...".to_owned());
        let guild_index_path = concat3(servers_root.as_str(), "/", "index.json");
        proof {
            reveal_strlit("/");
            reveal_strlit("index.json");
            reveal_strlit("/index.json");
            assert(guild_index_path@ =~= servers_root@ + "/index.json"@);
        }
        match archive.read_text(guild_index_path.as_str()) {
            Some(content) => {
                match parse_json(content.as_str()) {
                    Ok(v) => {
                        match string_map_entries(&v) {
                            Some(entries) => {
                                data.guild_count = entries.len();
                            },
                            None => {},
                        }
                    },
                    Err(_) => {},
                }
            },
            None => {},
        }
        sink.emit("Processing analytics...".to_owned());
        proof {
            assert(names@.map(|i: int, s: String| s@) =~= entry_names(*archive));
        }
        process_analytics(&names, &mut data);
        sink.emit("Finalizing extraction...".to_owned());
        proof {
            let (wc, wd, wm) = choose|wc: Seq<ChannelTally>, wd: Seq<DmTally>, wm: Seq<
                ParsedMessage,
            >| aggregates_witness(dpre, wc, wd, wm);
            assert(aggregates_witness(data, wc, wd, wm));
            assert(channel_aggregates(data));
            assert(user_root_link(*archive, data, user_root@));
            assert(user_summary_link(data, id0));
            assert(guild_root_link(*archive, data, servers_root@));
            assert forall|u: Seq<char>| archive_user_root(*archive, u) implies user_root_link(
                *archive,
                data,
                u,
            ) by {
                lemma_user_root_unique(*archive, u, user_root@);
            }
            assert forall|sr: Seq<char>| archive_server_root(*archive, sr) implies guild_root_link(
                *archive,
                data,
                sr,
            ) by {
                lemma_server_root_unique(*archive, sr, servers_root@);
            }
            match &data.user {
                Some(u) => {
                    assert forall|mr: Seq<char>| archive_message_root(*archive, mr) implies
                        dms_justified(*archive, mr, u.id@, data.top_dms@) by {
                        lemma_message_root_unique(*archive, mr, messages_root@);
                    }
                },
                None => {},
            }
            assert forall|mr: Seq<char>| archive_message_root(*archive, mr) implies
                channels_justified(
                *archive,
                mr,
                archive_name_index(*archive, mr),
                data.top_channels@,
            ) by {
                lemma_message_root_unique(*archive, mr, messages_root@);
            }
        }
        Ok(data)
    }
}

/// A failed probe scan over the name list means the marker is absent
/// from the archive, and conversely.
proof fn lemma_marker_no_probe(a: Archive, names: Seq<String>)
    requires
        names.len() == entry_names(a).len(),
        forall|i: int| 0 <= i < names.len() ==> (#[trigger] names[i])@ == entry_names(a)[i],
    ensures
        no_probe(names, "/channel.json"@, true) ==> lacks_message_marker(a),
        no_probe(names, "/guild.json"@, false) ==> lacks_server_marker(a),
        (forall|i: int| 0 <= i < names.len() ==> !is_user_probe((#[trigger] names[i])@))
            ==> lacks_user_marker(a),
{
    if no_probe(names, "/channel.json"@, true) {
        assert forall|i: int| 0 <= i < entry_names(a).len() implies probe_cut(
            #[trigger] entry_names(a)[i],
            "/channel.json"@,
            true,
        ) is None by {
            assert(names[i]@ == entry_names(a)[i]);
        }
    }
    if no_probe(names, "/guild.json"@, false) {
        assert forall|i: int| 0 <= i < entry_names(a).len() implies probe_cut(
            #[trigger] entry_names(a)[i],
            "/guild.json"@,
            false,
        ) is None by {
            assert(names[i]@ == entry_names(a)[i]);
        }
    }
    if forall|i: int| 0 <= i < names.len() ==> !is_user_probe((#[trigger] names[i])@) {
        assert forall|i: int| 0 <= i < entry_names(a).len() implies !is_user_probe(
            #[trigger] entry_names(a)[i],
        ) by {
            assert(names[i]@ == entry_names(a)[i]);
        }
    }
}

/// A marker absent from the archive fails every probe of the name list,
/// so a successful probe refutes absence.
proof fn lemma_found_means_marker(a: Archive, names: Seq<String>)
    requires
        names.len() == entry_names(a).len(),
        forall|i: int| 0 <= i < names.len() ==> (#[trigger] names[i])@ == entry_names(a)[i],
    ensures
        lacks_message_marker(a) ==> no_probe(names, "/channel.json"@, true),
        lacks_server_marker(a) ==> no_probe(names, "/guild.json"@, false),
        lacks_user_marker(a) ==> (forall|i: int|
            0 <= i < names.len() ==> !is_user_probe((#[trigger] names[i])@)),
{
    if lacks_message_marker(a) {
        assert forall|i: int| 0 <= i < names.len() implies probe_cut(
            (#[trigger] names[i])@,
            "/channel.json"@,
            true,
        ) is None by {
            assert(names[i]@ == entry_names(a)[i]);
        }
    }
    if lacks_server_marker(a) {
        assert forall|i: int| 0 <= i < names.len() implies probe_cut(
            (#[trigger] names[i])@,
            "/guild.json"@,
            false,
        ) is None by {
            assert(names[i]@ == entry_names(a)[i]);
        }
    }
    if lacks_user_marker(a) {
        assert forall|i: int| 0 <= i < names.len() implies !is_user_probe(
            (#[trigger] names[i])@,
        ) by {
            assert(names[i]@ == entry_names(a)[i]);
        }
    }
}

} // verus!
