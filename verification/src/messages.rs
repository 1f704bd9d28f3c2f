//! Message record handling: the whitespace tokenizer, the filter that
//! retains only messages with content, and the JSON and CSV message-set
//! decoders with their fallback chains.
use vstd::prelude::*;
use vstd::string::{StrSliceExecFns, StringExecFns};
use vstd::utf8::encode_utf8;
use crate::archive::string_eq_str;
use crate::json::{
    message_from_value, message_matches, message_of_tree, parse_json, record_tree_of, JsonTree,
    MessageModel,
};
use crate::models::{Message, ParsedMessage, RecordError};
use crate::text::{chars_of, digits_val, is_space, parse_u64, parses_as_u64, space_char};

verus! {

/// Length of the leading run of non-whitespace characters.
pub open spec fn nonspace_len(s: Seq<char>) -> int
    decreases s.len(),
{
    if s.len() == 0 || is_space(s[0]) {
        0
    } else {
        1 + nonspace_len(s.drop_first())
    }
}

pub proof fn lemma_nonspace_len_bounds(s: Seq<char>)
    ensures
        0 <= nonspace_len(s) <= s.len(),
    decreases s.len(),
{
    if s.len() > 0 && !is_space(s[0]) {
        lemma_nonspace_len_bounds(s.drop_first());
    }
}

/// If the `k` leading characters are non-whitespace and the run stops at
/// `k`, the leading run has length exactly `k`.
proof fn lemma_nonspace_len_exact(s: Seq<char>, k: int)
    requires
        0 <= k <= s.len(),
        forall|j: int| 0 <= j < k ==> !is_space(#[trigger] s[j]),
        k == s.len() || is_space(s[k]),
    ensures
        nonspace_len(s) == k,
    decreases k,
{
    if k == 0 {
    } else {
        let t = s.drop_first();
        assert(t =~= s.subrange(1, s.len() as int));
        lemma_nonspace_len_exact(t, k - 1);
    }
}

/// The whitespace-separated tokens of a text, in order: maximal runs of
/// non-whitespace characters.
pub open spec fn tokens(s: Seq<char>) -> Seq<Seq<char>>
    decreases s.len(),
    via tokens_dec
{
    if s.len() == 0 {
        Seq::empty()
    } else if is_space(s[0]) {
        tokens(s.drop_first())
    } else {
        seq![s.take(nonspace_len(s))] + tokens(s.skip(nonspace_len(s)))
    }
}

#[via_fn]
proof fn tokens_dec(s: Seq<char>) {
    lemma_nonspace_len_bounds(s);
    if s.len() > 0 {
        lemma_nonspace_len_bounds(s.drop_first());
    }
}

/// Split a text on whitespace into its tokens.
pub fn tokenize(s: &str) -> (r: Vec<String>)
    ensures
        r@.map(|i: int, w: String| w@) == tokens(s@),
{
    let cs = chars_of(s);
    let n = cs.len();
    let mut r: Vec<String> = Vec::new();
    let mut pos: usize = 0;
    proof {
        assert(s@.skip(0) =~= s@);
    }
    while pos < n
        invariant
            pos <= n,
            n == cs@.len(),
            cs@ == s@,
            r@.map(|i: int, w: String| w@) + tokens(s@.skip(pos as int)) == tokens(s@),
        decreases n - pos,
    {
        let ghost rest = s@.skip(pos as int);
        if space_char(cs[pos]) {
            proof {
                assert(rest[0] == s@[pos as int]);
                assert(rest.drop_first() =~= s@.skip(pos + 1));
            }
            pos += 1;
        } else {
            let start = pos;
            let mut end: usize = pos + 1;
            while end < n && !space_char(cs[end])
                invariant
                    start < end <= n,
                    n == cs@.len(),
                    cs@ == s@,
                    forall|j: int| start <= j < end ==> !is_space(#[trigger] s@[j]),
                decreases n - end,
            {
                end += 1;
            }
            let word = s.substring_char(start, end).to_owned();
            proof {
                assert(rest[0] == s@[start as int]);
                let rl = rest.len() as int;
                assert forall|j: int| 0 <= j < end - start implies !is_space(
                    #[trigger] rest[j],
                ) by {
                    assert(rest[j] == s@[pos + j]);
                }
                if end < n {
                    assert(rest[end - start] == s@[end as int]);
                }
                lemma_nonspace_len_exact(rest, end - start);
                assert(rest.take(end - start) =~= s@.subrange(start as int, end as int));
                assert(rest.skip(end - start) =~= s@.skip(end as int));
                assert(tokens(rest) == seq![word@] + tokens(s@.skip(end as int)));
                let prev = r@.map(|i: int, w: String| w@);
                assert(r@.push(word).map(|i: int, w: String| w@) =~= prev.push(word@));
                assert(prev.push(word@) + tokens(s@.skip(end as int)) =~= prev + tokens(rest));
            }
            r.push(word);
            pos = end;
        }
    }
    proof {
        assert(s@.skip(n as int) =~= Seq::<char>::empty());
        assert(r@.map(|i: int, w: String| w@) + tokens(s@.skip(n as int)) =~= r@.map(
            |i: int, w: String| w@,
        ));
    }
    r
}

/// The messages that survive filtering: exactly those with content.
pub open spec fn retained(msgs: Seq<Message>) -> Seq<Message>
    decreases msgs.len(),
{
    if msgs.len() == 0 {
        Seq::empty()
    } else {
        retained(msgs.drop_last()) + if msgs.last().contents@.len() > 0 {
            seq![msgs.last()]
        } else {
            Seq::empty()
        }
    }
}

/// A derived message is faithful to its raw message: same identifier and
/// timestamp, the byte length of the content, and its token list.
pub open spec fn pm_matches(p: ParsedMessage, m: Message) -> bool {
    &&& p.id == m.id
    &&& p.timestamp@ == m.timestamp@
    &&& p.length == encode_utf8(m.contents@).len() as usize
    &&& p.words@.map(|i: int, w: String| w@) == tokens(m.contents@)
}

/// The derived list corresponds one-to-one to the retained raw messages.
pub open spec fn parsed_match(ps: Seq<ParsedMessage>, ms: Seq<Message>) -> bool {
    &&& ps.len() == retained(ms).len()
    &&& forall|i: int| 0 <= i < ps.len() ==> pm_matches(#[trigger] ps[i], retained(ms)[i])
}

/// Some raw message list explains this derived list.
pub open spec fn is_parsed_output(ps: Seq<ParsedMessage>) -> bool {
    exists|ms: Seq<Message>| parsed_match(ps, ms)
}

/// All elements as messages; nothing where any element is ill-shaped.
pub open spec fn msgs_list(es: Seq<JsonTree>) -> Option<Seq<MessageModel>>
    decreases es.len(),
{
    if es.len() == 0 {
        Some(Seq::empty())
    } else {
        match (msgs_list(es.drop_last()), message_of_tree(es.last())) {
            (Some(pre), Some(m)) => Some(pre.push(m)),
            _ => None,
        }
    }
}

proof fn lemma_msgs_list_poison(es: Seq<JsonTree>, i: int)
    requires
        0 <= i < es.len(),
        message_of_tree(es[i]) is None,
    ensures
        msgs_list(es) is None,
    decreases es.len(),
{
    if i < es.len() - 1 {
        lemma_msgs_list_poison(es.drop_last(), i);
    }
}

/// The message set a decoded tree determines: an array of message
/// records, or — for exports that wrote a bare object — one message
/// record as a one-element list.
pub open spec fn messages_of_tree(t: JsonTree) -> Option<Seq<MessageModel>> {
    match t {
        JsonTree::Items(es) => msgs_list(es),
        _ => match message_of_tree(t) {
            Some(m) => Some(seq![m]),
            None => None,
        },
    }
}

/// The message set a record text determines through the tolerant chain.
pub open spec fn message_set_of(content: Seq<char>) -> Option<Seq<MessageModel>> {
    match record_tree_of(content) {
        Some(t) => messages_of_tree(t),
        None => None,
    }
}

/// The retained message models: exactly those with content.
pub open spec fn retained_models(ms: Seq<MessageModel>) -> Seq<MessageModel>
    decreases ms.len(),
{
    if ms.len() == 0 {
        Seq::empty()
    } else {
        retained_models(ms.drop_last()) + if ms.last().contents.len() > 0 {
            seq![ms.last()]
        } else {
            Seq::empty()
        }
    }
}

/// A derived message is faithful to its message model.
pub open spec fn pm_matches_model(p: ParsedMessage, m: MessageModel) -> bool {
    &&& p.id == m.id
    &&& p.timestamp@ == m.timestamp
    &&& p.length == encode_utf8(m.contents).len() as usize
    &&& p.words@.map(|i: int, w: String| w@) == tokens(m.contents)
}

/// The derived list corresponds one-to-one to the retained message
/// models.
pub open spec fn parsed_model_match(ps: Seq<ParsedMessage>, ms: Seq<MessageModel>) -> bool {
    &&& ps.len() == retained_models(ms).len()
    &&& forall|i: int| 0 <= i < ps.len() ==> pm_matches_model(#[trigger] ps[i], retained_models(ms)[i])
}

/// Raw messages that carry their models field by field retain the same
/// positions.
proof fn lemma_retained_bridge(msgs: Seq<Message>, ms: Seq<MessageModel>)
    requires
        msgs.len() == ms.len(),
        forall|i: int| 0 <= i < ms.len() ==> message_matches(#[trigger] msgs[i], ms[i]),
    ensures
        retained(msgs).len() == retained_models(ms).len(),
        forall|i: int|
            0 <= i < retained(msgs).len() ==> message_matches(
                #[trigger] retained(msgs)[i],
                retained_models(ms)[i],
            ),
    decreases msgs.len(),
{
    if msgs.len() > 0 {
        assert(forall|i: int|
            0 <= i < ms.drop_last().len() ==> message_matches(
                #[trigger] msgs.drop_last()[i],
                ms.drop_last()[i],
            ));
        lemma_retained_bridge(msgs.drop_last(), ms.drop_last());
        assert(message_matches(msgs.last(), ms.last()));
    }
}

/// Derive the retained messages: drop any message without content, and
/// compute each survivor's content length and token list.
pub fn to_parsed(msgs: &Vec<Message>) -> (r: Vec<ParsedMessage>)
    ensures
        parsed_match(r@, msgs@),
{
    let mut r: Vec<ParsedMessage> = Vec::new();
    let mut i: usize = 0;
    while i < msgs.len()
        invariant
            i <= msgs@.len(),
            parsed_match(r@, msgs@.subrange(0, i as int)),
        decreases msgs@.len() - i,
    {
        let ghost pre = msgs@.subrange(0, i as int);
        let ghost pre1 = msgs@.subrange(0, i + 1);
        proof {
            assert(pre1.drop_last() =~= pre);
            assert(pre1.last() == msgs@[i as int]);
        }
        let m = &msgs[i];
        if !m.contents.as_str().is_empty() {
            let words = tokenize(m.contents.as_str());
            let p = ParsedMessage {
                id: m.id,
                timestamp: m.timestamp.clone(),
                length: m.contents.as_str().len(),
                words,
            };
            proof {
                assert(pm_matches(p, msgs@[i as int]));
                assert(retained(pre1) =~= retained(pre) + seq![msgs@[i as int]]);
            }
            r.push(p);
        } else {
            proof {
                assert(retained(pre1) =~= retained(pre));
            }
        }
        i += 1;
    }
    proof {
        assert(msgs@.subrange(0, msgs@.len() as int) =~= msgs@);
    }
    r
}

/// Decode a JSON message set: an array of message records, or — for
/// exports that wrote a bare object — one message record wrapped into a
/// one-element list. Messages without content are dropped; the result
/// is exactly the derived form of the records the text determines.
#[verifier::loop_isolation(false)]
pub fn parse_json_messages(content: &str) -> (r: Result<Vec<ParsedMessage>, RecordError>)
    ensures
        match message_set_of(content@) {
            Some(ms) => r matches Ok(ps) && parsed_model_match(ps@, ms),
            None => r is Err,
        },
        r matches Ok(ps) ==> is_parsed_output(ps@),
{
    let v = match parse_json(content) {
        Ok(v) => v,
        Err(e) => {
            return Err(e);
        },
    };
    let ghost tree = crate::json::json_tree_of(v);
    let ghost models: Seq<MessageModel> = Seq::empty();
    let mut msgs: Vec<Message> = Vec::new();
    match v.as_array() {
        Some(arr) => {
            let ghost elems = tree->Items_0;
            let mut i: usize = 0;
            while i < arr.len()
                invariant
                    i <= arr@.len(),
                    tree is Items && elems == tree->Items_0,
                    arr@.len() == elems.len(),
                    forall|k: int|
                        0 <= k < elems.len() ==> crate::json::json_tree_of(#[trigger] arr@[k])
                            == elems[k],
                    msgs_list(elems.subrange(0, i as int)) matches Some(pre) && pre.len()
                        == msgs@.len() && (forall|k: int|
                        0 <= k < msgs@.len() ==> message_matches(#[trigger] msgs@[k], pre[k])),
                decreases arr@.len() - i,
            {
                let ghost pre = elems.subrange(0, i as int);
                let ghost pre1 = elems.subrange(0, i + 1);
                proof {
                    assert(pre1.drop_last() =~= pre);
                    assert(pre1.last() == elems[i as int]);
                }
                match message_from_value(&arr[i]) {
                    Some(m) => msgs.push(m),
                    None => {
                        proof {
                            lemma_msgs_list_poison(elems, i as int);
                        }
                        return Err(
                            RecordError {
                                message: "message list entry has an unexpected shape".to_owned(),
                            },
                        );
                    },
                }
                i += 1;
            }
            proof {
                assert(elems.subrange(0, elems.len() as int) =~= elems);
            }
        },
        None => {
            match message_from_value(&v) {
                Some(m) => {
                    msgs.push(m);
                    proof {
                        let ms = messages_of_tree(tree)->Some_0;
                        assert(ms =~= seq![message_of_tree(tree)->Some_0]);
                    }
                },
                None => {
                    return Err(
                        RecordError { message: "message record has an unexpected shape".to_owned() },
                    );
                },
            }
        },
    }
    let ghost ms = messages_of_tree(tree)->Some_0;
    proof {
        assert(msgs@.len() == ms.len() && forall|i: int|
            0 <= i < ms.len() ==> message_matches(#[trigger] msgs@[i], ms[i]));
    }
    let ps = to_parsed(&msgs);
    proof {
        lemma_retained_bridge(msgs@, ms);
        assert(parsed_model_match(ps@, ms)) by {
            assert forall|i: int| 0 <= i < ps@.len() implies pm_matches_model(
                #[trigger] ps@[i],
                retained_models(ms)[i],
            ) by {
                assert(pm_matches(ps@[i], retained(msgs@)[i]));
                assert(message_matches(retained(msgs@)[i], retained_models(ms)[i]));
            }
        }
        assert(is_parsed_output(ps@));
    }
    Ok(ps)
}

/// The field texts of a row list.
pub open spec fn string_views(v: Seq<String>) -> Seq<Seq<char>> {
    v.map(|i: int, s: String| s@)
}

/// The field texts of every row.
pub open spec fn row_views(v: Seq<Vec<String>>) -> Seq<Seq<Seq<char>>> {
    v.map(|i: int, r: Vec<String>| r@.map(|j: int, s: String| s@))
}

/// What the tabular reader yields for a text: the header row and the
/// data rows, or nothing where some row is ill-formed. A function of the
/// text alone.
pub uninterp spec fn csv_table_of(s: Seq<char>) -> Option<(Seq<Seq<char>>, Seq<Seq<Seq<char>>>)>;

/// Relies on csv::Reader::from_reader, csv::Reader::headers and
/// csv::Reader::records: the header row and the data rows of a CSV text,
/// every field as owned text; errs exactly where the reader reports an
/// ill-formed row, with its message as text.
#[verifier::external_body]
fn csv_rows(content: &str) -> (r: Result<(Vec<String>, Vec<Vec<String>>), String>)
    ensures
        r matches Ok(t) ==> (csv_table_of(content@) matches Some(tab) && tab.0 == string_views(
            t.0@,
        ) && tab.1 == row_views(t.1@)),
        r is Err ==> csv_table_of(content@) is None,
{
    let mut rdr = csv::Reader::from_reader(content.as_bytes());
    let headers = match rdr.headers() {
        Ok(h) => h.iter().map(|f| f.to_string()).collect(),
        Err(e) => return Err(e.to_string()),
    };
    let mut rows = Vec::new();
    for rec in rdr.records() {
        match rec {
            Ok(row) => rows.push(row.iter().map(|f| f.to_string()).collect()),
            Err(e) => return Err(e.to_string()),
        }
    }
    Ok((headers, rows))
}

/// The first position of a header column, by name.
pub open spec fn col_of(headers: Seq<Seq<char>>, name: Seq<char>, i: int) -> Option<int>
    decreases headers.len() - i,
{
    if i < 0 || i >= headers.len() {
        None
    } else if headers[i] == name {
        Some(i)
    } else {
        col_of(headers, name, i + 1)
    }
}

proof fn lemma_col_of_advance(headers: Seq<Seq<char>>, name: Seq<char>, i: int)
    requires
        0 <= i <= headers.len(),
        forall|j: int| 0 <= j < i ==> #[trigger] headers[j] != name,
    ensures
        col_of(headers, name, 0) == col_of(headers, name, i),
    decreases i,
{
    if i > 0 {
        lemma_col_of_advance(headers, name, i - 1);
    }
}

/// The position of the first header equal to `name`.
#[verifier::loop_isolation(false)]
fn find_column(headers: &Vec<String>, name: &str) -> (r: Option<usize>)
    ensures
        r matches Some(i) ==> col_of(string_views(headers@), name@, 0) == Some(i as int),
        r is None ==> col_of(string_views(headers@), name@, 0) is None,
{
    let ghost hs = string_views(headers@);
    let mut i: usize = 0;
    while i < headers.len()
        invariant
            i <= headers@.len(),
            forall|j: int| 0 <= j < i ==> #[trigger] hs[j] != name@,
        decreases headers@.len() - i,
    {
        if string_eq_str(&headers[i], name) {
            proof {
                assert(hs[i as int] == name@);
                lemma_col_of_advance(hs, name@, i as int);
            }
            return Some(i);
        }
        proof {
            assert(hs[i as int] == headers@[i as int]@);
        }
        i += 1;
    }
    proof {
        lemma_col_of_advance(hs, name@, hs.len() as int);
    }
    None
}

/// How a raw message's attachment field reflects one row: present
/// exactly where the attachment column exists and the cell is non-empty.
pub open spec fn att_matches(m: Message, row: Seq<Seq<char>>, atc: Option<int>) -> bool {
    match atc {
        None => m.attachments is None,
        Some(c) => if 0 <= c < row.len() && row[c].len() > 0 {
            m.attachments matches Some(a) && a@ == row[c]
        } else {
            m.attachments is None
        },
    }
}

/// A data row holds the three required fields and a numeric identifier.
pub open spec fn row_wf(row: Seq<Seq<char>>, idc: int, tsc: int, ctc: int) -> bool {
    &&& 0 <= idc < row.len()
    &&& 0 <= tsc < row.len()
    &&& 0 <= ctc < row.len()
    &&& parses_as_u64(row[idc])
}

/// One raw message carries exactly one row's fields.
pub open spec fn row_msg_matches(
    m: Message,
    row: Seq<Seq<char>>,
    idc: int,
    tsc: int,
    ctc: int,
    atc: Option<int>,
) -> bool {
    &&& m.id == digits_val(row[idc])
    &&& m.timestamp@ == row[tsc]
    &&& m.contents@ == row[ctc]
    &&& att_matches(m, row, atc)
}

/// The raw message list carries the rows one-to-one, in order.
pub open spec fn rows_msgs_match(
    ms: Seq<Message>,
    rows: Seq<Seq<Seq<char>>>,
    idc: int,
    tsc: int,
    ctc: int,
    atc: Option<int>,
) -> bool {
    &&& ms.len() == rows.len()
    &&& forall|i: int|
        0 <= i < rows.len() ==> row_wf(#[trigger] rows[i], idc, tsc, ctc) && row_msg_matches(
            ms[i],
            rows[i],
            idc,
            tsc,
            ctc,
            atc,
        )
}

/// A read table maps to messages: the three required columns resolve and
/// every row is well-formed.
pub open spec fn table_decodes(tab: (Seq<Seq<char>>, Seq<Seq<Seq<char>>>)) -> bool {
    match (col_of(tab.0, "ID"@, 0), col_of(tab.0, "Timestamp"@, 0), col_of(tab.0, "Contents"@, 0)) {
        (Some(idc), Some(tsc), Some(ctc)) => forall|i: int|
            0 <= i < tab.1.len() ==> row_wf(#[trigger] tab.1[i], idc, tsc, ctc),
        _ => false,
    }
}

/// The derived list is the retained mapping of the table's rows.
pub open spec fn csv_output_match(
    tab: (Seq<Seq<char>>, Seq<Seq<Seq<char>>>),
    ps: Seq<ParsedMessage>,
) -> bool {
    exists|ms: Seq<Message>|
        #[trigger] rows_msgs_match(
            ms,
            tab.1,
            col_of(tab.0, "ID"@, 0)->Some_0,
            col_of(tab.0, "Timestamp"@, 0)->Some_0,
            col_of(tab.0, "Contents"@, 0)->Some_0,
            col_of(tab.0, "Attachments"@, 0),
        ) && parsed_match(ps, ms)
}

/// Decode a CSV message set row by row into the same message shape as the
/// JSON decoder, then derive the retained messages.
#[verifier::loop_isolation(false)]
pub fn parse_csv(content: &str) -> (r: Result<Vec<ParsedMessage>, RecordError>)
    ensures
        csv_table_of(content@) is None ==> r is Err,
        csv_table_of(content@) matches Some(tab) ==> (if table_decodes(tab) {
            r matches Ok(ps) && csv_output_match(tab, ps@)
        } else {
            r is Err
        }),
        r matches Ok(ps) ==> is_parsed_output(ps@),
{
    let (headers, rows) = match csv_rows(content) {
        Ok(t) => t,
        Err(m) => {
            return Err(RecordError { message: m });
        },
    };
    let ghost tab = csv_table_of(content@)->Some_0;
    proof {
        assert(tab.0 == string_views(headers@) && tab.1 == row_views(rows@));
    }
    let id_col = match find_column(&headers, "ID") {
        Some(c) => c,
        None => {
            return Err(RecordError { message: "message table lacks an ID column".to_owned() });
        },
    };
    let ts_col = match find_column(&headers, "Timestamp") {
        Some(c) => c,
        None => {
            return Err(
                RecordError { message: "message table lacks a Timestamp column".to_owned() },
            );
        },
    };
    let ct_col = match find_column(&headers, "Contents") {
        Some(c) => c,
        None => {
            return Err(
                RecordError { message: "message table lacks a Contents column".to_owned() },
            );
        },
    };
    let at_col = find_column(&headers, "Attachments");
    let ghost atc: Option<int> = match at_col {
        Some(c) => Some(c as int),
        None => None,
    };
    let mut msgs: Vec<Message> = Vec::new();
    let mut i: usize = 0;
    while i < rows.len()
        invariant
            i <= rows@.len(),
            tab.0 == string_views(headers@),
            tab.1 == row_views(rows@),
            col_of(tab.0, "ID"@, 0) == Some(id_col as int),
            col_of(tab.0, "Timestamp"@, 0) == Some(ts_col as int),
            col_of(tab.0, "Contents"@, 0) == Some(ct_col as int),
            col_of(tab.0, "Attachments"@, 0) == atc,
            msgs@.len() == i,
            forall|k: int|
                0 <= k < i ==> row_wf(#[trigger] tab.1[k], id_col as int, ts_col as int, ct_col as int)
                    && row_msg_matches(
                    msgs@[k],
                    tab.1[k],
                    id_col as int,
                    ts_col as int,
                    ct_col as int,
                    atc,
                ),
        decreases rows@.len() - i,
    {
        let row = &rows[i];
        let ghost rv = tab.1[i as int];
        proof {
            assert(rv =~= row@.map(|j: int, f: String| f@));
        }
        if id_col >= row.len() || ts_col >= row.len() || ct_col >= row.len() {
            proof {
                assert(!row_wf(tab.1[i as int], id_col as int, ts_col as int, ct_col as int));
            }
            return Err(RecordError { message: "message row is missing a field".to_owned() });
        }
        let id_chars = chars_of(row[id_col].as_str());
        proof {
            assert(rv[id_col as int] == row@[id_col as int]@);
        }
        let id = match parse_u64(&id_chars) {
            Some(v) => v,
            None => {
                proof {
                    assert(!row_wf(tab.1[i as int], id_col as int, ts_col as int, ct_col as int));
                }
                return Err(
                    RecordError { message: "message row has a malformed identifier".to_owned() },
                );
            },
        };
        let attachments: Option<String> = match at_col {
            Some(c) => {
                if c < row.len() && !row[c].as_str().is_empty() {
                    proof {
                        assert(rv[c as int] == row@[c as int]@);
                    }
                    Some(row[c].clone())
                } else {
                    proof {
                        if (c as int) < rv.len() {
                            assert(rv[c as int] == row@[c as int]@);
                        }
                    }
                    None
                }
            },
            None => None,
        };
        let m = Message {
            id,
            timestamp: row[ts_col].clone(),
            contents: row[ct_col].clone(),
            attachments,
        };
        proof {
            assert(rv[ts_col as int] == row@[ts_col as int]@);
            assert(rv[ct_col as int] == row@[ct_col as int]@);
            assert(row_wf(rv, id_col as int, ts_col as int, ct_col as int));
            assert(row_msg_matches(m, rv, id_col as int, ts_col as int, ct_col as int, atc));
        }
        msgs.push(m);
        i += 1;
    }
    proof {
        assert(table_decodes(tab));
        assert(rows_msgs_match(msgs@, tab.1, id_col as int, ts_col as int, ct_col as int, atc));
    }
    let ps = to_parsed(&msgs);
    proof {
        assert(rows_msgs_match(
            msgs@,
            tab.1,
            col_of(tab.0, "ID"@, 0)->Some_0,
            col_of(tab.0, "Timestamp"@, 0)->Some_0,
            col_of(tab.0, "Contents"@, 0)->Some_0,
            col_of(tab.0, "Attachments"@, 0),
        ));
        assert(csv_output_match(tab, ps@));
        assert(is_parsed_output(ps@));
    }
    Ok(ps)
}

} // verus!
