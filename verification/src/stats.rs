//! Streaming aggregation over retained messages: the running character
//! count, the 24-bucket hourly histogram, and the word-frequency tallies.
//! Counter updates saturate at the machine limit instead of wrapping.
use vstd::prelude::*;
use vstd::string::StrSliceExecFns;
use vstd::utf8::encode_utf8;
use crate::models::ParsedMessage;

verus! {

/// Addition capped at the machine word: the saturating arithmetic used by
/// every running counter.
pub open spec fn sat_add(a: int, b: int) -> int {
    if a + b > usize::MAX {
        usize::MAX as int
    } else {
        a + b
    }
}

/// Executable saturating addition.
pub fn usize_sat_add(a: usize, b: usize) -> (r: usize)
    ensures
        r == sat_add(a as int, b as int),
{
    if a <= usize::MAX - b {
        a + b
    } else {
        usize::MAX
    }
}

/// What the timestamp decoder returns for a timestamp text: the UTC hour
/// of day, or nothing for text that is not a valid timestamp. The result
/// depends on the text alone.
pub uninterp spec fn rfc3339_utc_hour(s: Seq<char>) -> Option<u8>;

/// Relies on chrono::DateTime::parse_from_rfc3339, DateTime::with_timezone
/// and chrono::Timelike::hour: the UTC hour of day of a timestamp text,
/// absent for unparseable text; chrono documents `hour` as 0 to 23.
#[verifier::external_body]
pub(crate) fn utc_hour_of(ts: &str) -> (r: Option<u8>)
    ensures
        r == rfc3339_utc_hour(ts@),
        r matches Some(h) ==> h < 24,
{
    match chrono::DateTime::parse_from_rfc3339(ts) {
        Ok(dt) => Some(chrono::Timelike::hour(&dt.with_timezone(&chrono::Utc)) as u8),
        Err(_) => None,
    }
}

/// One word-frequency tally.
#[derive(Debug)]
pub struct WordTally {
    pub word: String,
    pub count: usize,
}

/// The tallies as mathematical pairs.
pub open spec fn tally_views(ws: Seq<WordTally>) -> Seq<(Seq<char>, int)> {
    ws.map(|i: int, t: WordTally| (t.word@, t.count as int))
}

/// First position holding the key `w`.
pub open spec fn find_key(ts: Seq<(Seq<char>, int)>, w: Seq<char>, i: int) -> Option<int>
    decreases ts.len() - i,
{
    if i < 0 || i >= ts.len() {
        None
    } else if ts[i].0 == w {
        Some(i)
    } else {
        find_key(ts, w, i + 1)
    }
}

/// A found key lies in range and holds the key.
pub proof fn lemma_find_key_props(ts: Seq<(Seq<char>, int)>, w: Seq<char>, i: int)
    requires
        0 <= i <= ts.len(),
    ensures
        find_key(ts, w, i) matches Some(j) ==> i <= j < ts.len() && ts[j].0 == w,
    decreases ts.len() - i,
{
    if i < ts.len() && ts[i].0 != w {
        lemma_find_key_props(ts, w, i + 1);
    }
}

pub proof fn lemma_find_key_advance(ts: Seq<(Seq<char>, int)>, w: Seq<char>, i: int)
    requires
        0 <= i <= ts.len(),
        forall|j: int| 0 <= j < i ==> (#[trigger] ts[j]).0 != w,
    ensures
        find_key(ts, w, 0) == find_key(ts, w, i),
    decreases i,
{
    if i > 0 {
        lemma_find_key_advance(ts, w, i - 1);
    }
}

/// One word observed: its tally bumped (saturating), or a fresh tally of
/// one appended.
pub open spec fn bump(ts: Seq<(Seq<char>, int)>, w: Seq<char>) -> Seq<(Seq<char>, int)> {
    match find_key(ts, w, 0) {
        Some(j) => ts.update(j, (w, sat_add(ts[j].1, 1))),
        None => ts.push((w, 1)),
    }
}

/// Byte length of a word, as the machine reports it.
pub open spec fn byte_len(w: Seq<char>) -> int {
    (encode_utf8(w).len() as usize) as int
}

/// All the words of one message folded in: only words longer than five
/// bytes are tallied.
pub open spec fn fold_words(ts: Seq<(Seq<char>, int)>, words: Seq<Seq<char>>) -> Seq<
    (Seq<char>, int),
>
    decreases words.len(),
{
    if words.len() == 0 {
        ts
    } else {
        let prev = fold_words(ts, words.drop_last());
        if byte_len(words.last()) > 5 {
            bump(prev, words.last())
        } else {
            prev
        }
    }
}

/// Every tallied word is longer than five bytes.
pub open spec fn tallies_wf(ts: Seq<(Seq<char>, int)>) -> bool {
    forall|i: int| 0 <= i < ts.len() ==> byte_len((#[trigger] ts[i]).0) > 5
}

pub proof fn lemma_bump_wf(ts: Seq<(Seq<char>, int)>, w: Seq<char>)
    requires
        tallies_wf(ts),
        byte_len(w) > 5,
    ensures
        tallies_wf(bump(ts, w)),
{
    lemma_find_key_props(ts, w, 0);
    match find_key(ts, w, 0) {
        Some(j) => {
            let r = ts.update(j, (w, sat_add(ts[j].1, 1)));
            assert forall|i: int| 0 <= i < r.len() implies byte_len((#[trigger] r[i]).0) > 5 by {
                if i != j {
                    assert(r[i] == ts[i]);
                }
            }
        },
        None => {
            let r = ts.push((w, 1));
            assert forall|i: int| 0 <= i < r.len() implies byte_len((#[trigger] r[i]).0) > 5 by {
                if i < ts.len() {
                    assert(r[i] == ts[i]);
                }
            }
        },
    }
}

/// The histogram effect of one message: the bucket of its UTC hour is
/// bumped where the timestamp parses; totals are otherwise untouched.
pub open spec fn hist_bump(h: Seq<usize>, ts: Seq<char>) -> Seq<usize> {
    match rfc3339_utc_hour(ts) {
        Some(hr) => if hr < 24 {
            h.update(hr as int, sat_add(h[hr as int] as int, 1) as usize)
        } else {
            h
        },
        None => h,
    }
}

/// Histogram after folding a message list.
pub open spec fn fold_hist(h: Seq<usize>, msgs: Seq<ParsedMessage>) -> Seq<usize>
    decreases msgs.len(),
{
    if msgs.len() == 0 {
        h
    } else {
        hist_bump(fold_hist(h, msgs.drop_last()), msgs.last().timestamp@)
    }
}

/// Character count after folding a message list.
pub open spec fn fold_chars(c: int, msgs: Seq<ParsedMessage>) -> int
    decreases msgs.len(),
{
    if msgs.len() == 0 {
        c
    } else {
        sat_add(fold_chars(c, msgs.drop_last()), msgs.last().length as int)
    }
}

/// Word views of a message.
pub open spec fn word_views(words: Seq<String>) -> Seq<Seq<char>> {
    words.map(|i: int, w: String| w@)
}

/// Word tallies after folding a message list.
pub open spec fn fold_tallies(ts: Seq<(Seq<char>, int)>, msgs: Seq<ParsedMessage>) -> Seq<
    (Seq<char>, int),
>
    decreases msgs.len(),
{
    if msgs.len() == 0 {
        ts
    } else {
        fold_words(fold_tallies(ts, msgs.drop_last()), word_views(msgs.last().words@))
    }
}

/// The running aggregation state of one extraction run.
pub struct RunningStats {
    pub character_count: usize,
    pub hours: Vec<usize>,
    pub words: Vec<WordTally>,
}

impl RunningStats {
    /// 24 buckets, and every tallied word longer than five bytes.
    pub open spec fn wf(self) -> bool {
        &&& self.hours@.len() == 24
        &&& tallies_wf(tally_views(self.words@))
    }

    /// Fresh state: zero characters, an all-zero histogram, no tallies.
    pub fn new() -> (r: RunningStats)
        ensures
            r.wf(),
            r.character_count == 0,
            r.hours@ == Seq::new(24, |i: int| 0usize),
            tally_views(r.words@) == Seq::<(Seq<char>, int)>::empty(),
    {
        let mut hours: Vec<usize> = Vec::new();
        while hours.len() < 24
            invariant
                hours@.len() <= 24,
                forall|i: int| 0 <= i < hours@.len() ==> hours@[i] == 0usize,
            decreases 24 - hours@.len(),
        {
            hours.push(0);
        }
        proof {
            assert(hours@ =~= Seq::new(24, |i: int| 0usize));
            assert(tally_views(Seq::<WordTally>::empty()) =~= Seq::<(Seq<char>, int)>::empty());
        }
        RunningStats { character_count: 0, hours, words: Vec::new() }
    }
}

/// Tally one word (saturating), appending a fresh tally when unseen.
#[verifier::loop_isolation(false)]
fn bump_word(tallies: &mut Vec<WordTally>, w: &String)
    ensures
        tally_views(final(tallies)@) == bump(tally_views(old(tallies)@), w@),
        final(tallies)@.len() >= old(tallies)@.len(),
{
    let ghost ts = tally_views(tallies@);
    let mut j: usize = 0;
    while j < tallies.len()
        invariant
            j <= tallies@.len(),
            ts == tally_views(tallies@),
            forall|k: int| 0 <= k < j ==> (#[trigger] ts[k]).0 != w@,
        decreases tallies@.len() - j,
    {
        if tallies[j].word == *w {
            proof {
                assert(ts[j as int].0 == w@);
                lemma_find_key_advance(ts, w@, j as int);
            }
            let c = tallies[j].count;
            tallies[j].count = usize_sat_add(c, 1);
            proof {
                assert(tally_views(tallies@) =~~= ts.update(
                    j as int,
                    (w@, sat_add(ts[j as int].1, 1)),
                ));
            }
            return ;
        }
        proof {
            assert(ts[j as int] == (tallies@[j as int].word@, tallies@[j as int].count as int));
        }
        j += 1;
    }
    proof {
        lemma_find_key_advance(ts, w@, tallies@.len() as int);
    }
    tallies.push(WordTally { word: w.clone(), count: 1 });
    proof {
        assert(tally_views(tallies@) =~~= ts.push((w@, 1)));
    }
}

/// Fold one retained message into the running state: its length into the
/// character count, its hour into the histogram where the timestamp
/// parses, and each of its words longer than five bytes into the tallies.
#[verifier::loop_isolation(false)]
pub fn fold_message(stats: &mut RunningStats, m: &ParsedMessage)
    requires
        old(stats).wf(),
    ensures
        final(stats).wf(),
        final(stats).character_count as int == sat_add(
            old(stats).character_count as int,
            m.length as int,
        ),
        final(stats).hours@ == hist_bump(old(stats).hours@, m.timestamp@),
        tally_views(final(stats).words@) == fold_words(
            tally_views(old(stats).words@),
            word_views(m.words@),
        ),
{
    stats.character_count = usize_sat_add(stats.character_count, m.length);
    match utc_hour_of(m.timestamp.as_str()) {
        Some(h) => {
            let hi: usize = h as usize;
            let c = stats.hours[hi];
            stats.hours[hi] = usize_sat_add(c, 1);
        },
        None => {},
    }
    proof {
        assert(stats.hours@ =~= hist_bump(old(stats).hours@, m.timestamp@));
    }
    let ghost cc = stats.character_count;
    let ghost hh = stats.hours@;
    let ghost ts0 = tally_views(stats.words@);
    let mut i: usize = 0;
    while i < m.words.len()
        invariant
            i <= m.words@.len(),
            stats.character_count == cc,
            stats.hours@ == hh,
            hh.len() == 24,
            tally_views(stats.words@) == fold_words(ts0, word_views(m.words@).subrange(0, i as int)),
            tallies_wf(tally_views(stats.words@)),
        decreases m.words@.len() - i,
    {
        let ghost pre = word_views(m.words@).subrange(0, i as int);
        let ghost pre1 = word_views(m.words@).subrange(0, i + 1);
        proof {
            assert(pre1.drop_last() =~= pre);
            assert(pre1.last() == m.words@[i as int]@);
        }
        if m.words[i].as_str().len() > 5 {
            proof {
                lemma_bump_wf(tally_views(stats.words@), m.words@[i as int]@);
            }
            bump_word(&mut stats.words, &m.words[i]);
        }
        proof {
            assert(tally_views(stats.words@) == fold_words(ts0, pre1));
        }
        i += 1;
    }
    proof {
        assert(word_views(m.words@).subrange(0, m.words@.len() as int) =~= word_views(m.words@));
    }
}

/// Fold a whole message list into the running state.
#[verifier::loop_isolation(false)]
pub fn fold_messages(stats: &mut RunningStats, msgs: &Vec<ParsedMessage>)
    requires
        old(stats).wf(),
    ensures
        final(stats).wf(),
        final(stats).character_count as int == fold_chars(
            old(stats).character_count as int,
            msgs@,
        ),
        final(stats).hours@ == fold_hist(old(stats).hours@, msgs@),
        tally_views(final(stats).words@) == fold_tallies(tally_views(old(stats).words@), msgs@),
{
    let ghost c0 = stats.character_count as int;
    let ghost h0 = stats.hours@;
    let ghost t0 = tally_views(stats.words@);
    let mut i: usize = 0;
    while i < msgs.len()
        invariant
            i <= msgs@.len(),
            stats.wf(),
            stats.character_count as int == fold_chars(c0, msgs@.subrange(0, i as int)),
            stats.hours@ == fold_hist(h0, msgs@.subrange(0, i as int)),
            tally_views(stats.words@) == fold_tallies(t0, msgs@.subrange(0, i as int)),
        decreases msgs@.len() - i,
    {
        let ghost pre = msgs@.subrange(0, i as int);
        let ghost pre1 = msgs@.subrange(0, i + 1);
        proof {
            assert(pre1.drop_last() =~= pre);
            assert(pre1.last() == msgs@[i as int]);
        }
        fold_message(stats, &msgs[i]);
        i += 1;
    }
    proof {
        assert(msgs@.subrange(0, msgs@.len() as int) =~= msgs@);
    }
}

/// Folding distributes over concatenation of message lists.
pub proof fn lemma_fold_concat(
    c: int,
    h: Seq<usize>,
    ts: Seq<(Seq<char>, int)>,
    a: Seq<ParsedMessage>,
    b: Seq<ParsedMessage>,
)
    ensures
        fold_chars(c, a + b) == fold_chars(fold_chars(c, a), b),
        fold_hist(h, a + b) == fold_hist(fold_hist(h, a), b),
        fold_tallies(ts, a + b) == fold_tallies(fold_tallies(ts, a), b),
    decreases b.len(),
{
    if b.len() == 0 {
        assert(a + b =~= a);
    } else {
        lemma_fold_concat(c, h, ts, a, b.drop_last());
        assert((a + b).drop_last() =~= a + b.drop_last());
        assert((a + b).last() == b.last());
    }
}

/// Exact sum of a count list.
pub open spec fn int_sum(s: Seq<usize>) -> int
    decreases s.len(),
{
    if s.len() == 0 {
        0
    } else {
        int_sum(s.drop_last()) + s.last()
    }
}

/// Saturating left fold of a count list.
pub open spec fn sat_fold(c: int, s: Seq<usize>) -> int
    decreases s.len(),
{
    if s.len() == 0 {
        c
    } else {
        sat_add(sat_fold(c, s.drop_last()), s.last() as int)
    }
}

/// A saturating fold equals the saturated exact sum: saturating early
/// loses nothing.
pub proof fn lemma_sat_fold_sum(c: int, s: Seq<usize>)
    requires
        0 <= c <= usize::MAX,
    ensures
        int_sum(s) >= 0,
        sat_fold(c, s) == sat_add(c, int_sum(s)),
    decreases s.len(),
{
    if s.len() > 0 {
        lemma_sat_fold_sum(c, s.drop_last());
        let sp = int_sum(s.drop_last());
        let last = s.last() as int;
        assert(int_sum(s) == sp + last);
        assert(sat_fold(c, s) == sat_add(sat_add(c, sp), last));
        if c + sp > usize::MAX {
            assert(sat_add(c, sp) == usize::MAX as int);
            assert(sat_add(usize::MAX as int, last) == usize::MAX as int);
        } else {
            assert(sat_add(c, sp) == c + sp);
        }
    }
}

/// Saturating sum of counts, starting from an earlier total.
pub fn sat_sum(start: usize, counts: &Vec<usize>) -> (r: usize)
    ensures
        r as int == sat_fold(start as int, counts@),
{
    let mut total = start;
    let mut i: usize = 0;
    while i < counts.len()
        invariant
            i <= counts@.len(),
            total as int == sat_fold(start as int, counts@.subrange(0, i as int)),
        decreases counts@.len() - i,
    {
        let ghost pre = counts@.subrange(0, i as int);
        let ghost pre1 = counts@.subrange(0, i + 1);
        proof {
            assert(pre1.drop_last() =~= pre);
            assert(pre1.last() == counts@[i as int]);
        }
        total = usize_sat_add(total, counts[i]);
        i += 1;
    }
    proof {
        assert(counts@.subrange(0, counts@.len() as int) =~= counts@);
    }
    total
}

/// Sum of a histogram.
pub open spec fn sum_buckets(h: Seq<usize>) -> int
    decreases h.len(),
{
    if h.len() == 0 {
        0
    } else {
        sum_buckets(h.drop_last()) + h.last()
    }
}

proof fn lemma_sum_update(h: Seq<usize>, i: int, v: usize)
    requires
        0 <= i < h.len(),
    ensures
        sum_buckets(h.update(i, v)) == sum_buckets(h) - h[i] + v,
    decreases h.len(),
{
    let hu = h.update(i, v);
    if i == h.len() - 1 {
        assert(hu.drop_last() =~= h.drop_last());
    } else {
        assert(hu.drop_last() =~= h.drop_last().update(i, v));
        assert(hu.last() == h.last());
        lemma_sum_update(h.drop_last(), i, v);
    }
}

/// The messages of a list whose timestamps parse.
pub open spec fn count_parseable(msgs: Seq<ParsedMessage>) -> int
    decreases msgs.len(),
{
    if msgs.len() == 0 {
        0
    } else {
        count_parseable(msgs.drop_last()) + if rfc3339_utc_hour(msgs.last().timestamp@) is Some {
            1int
        } else {
            0int
        }
    }
}

/// Folding messages adds at most one bucket increment per message with a
/// parseable timestamp: the histogram total never exceeds the count of
/// parseable messages it absorbed.
pub proof fn lemma_fold_hist_sum(h: Seq<usize>, msgs: Seq<ParsedMessage>)
    requires
        h.len() == 24,
    ensures
        fold_hist(h, msgs).len() == 24,
        sum_buckets(fold_hist(h, msgs)) <= sum_buckets(h) + count_parseable(msgs),
    decreases msgs.len(),
{
    if msgs.len() > 0 {
        lemma_fold_hist_sum(h, msgs.drop_last());
        let hp = fold_hist(h, msgs.drop_last());
        match rfc3339_utc_hour(msgs.last().timestamp@) {
            Some(hr) => {
                if hr < 24 {
                    lemma_sum_update(hp, hr as int, sat_add(hp[hr as int] as int, 1) as usize);
                }
            },
            None => {},
        }
    }
}

/// An all-zero histogram sums to zero.
pub proof fn lemma_sum_zeros(h: Seq<usize>)
    requires
        forall|i: int| 0 <= i < h.len() ==> #[trigger] h[i] == 0usize,
    ensures
        sum_buckets(h) == 0,
    decreases h.len(),
{
    if h.len() > 0 {
        lemma_sum_zeros(h.drop_last());
    }
}

} // verus!
