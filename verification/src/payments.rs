//! Payment summarization: filter to confirmed payments, accumulate
//! per-currency totals in minor units, and render the history sorted by
//! creation time.
use vstd::prelude::*;
use vstd::string::{StrSliceExecFns, StringExecFns};
use crate::models::{Payment, PaymentInfo, User};
use crate::stats::{find_key, lemma_find_key_advance, lemma_find_key_props};
use crate::text::{
    chars_of, dec_digits, digit_str, lex_le, lex_le_chars, lemma_lex_total, push_u64,
};

verus! {

/// A confirmed payment: status code one.
pub open spec fn confirmed(p: Payment) -> bool {
    p.status == 1
}

/// The confirmed payments of a list, in order.
pub open spec fn confirmed_of(ps: Seq<Payment>) -> Seq<Payment>
    decreases ps.len(),
{
    if ps.len() == 0 {
        Seq::empty()
    } else {
        confirmed_of(ps.drop_last()) + if confirmed(ps.last()) {
            seq![ps.last()]
        } else {
            Seq::empty()
        }
    }
}

/// Addition capped at `u64::MAX`, the arithmetic of the currency totals.
pub open spec fn sat_add64(a: int, b: int) -> int {
    if a + b > u64::MAX {
        u64::MAX as int
    } else {
        a + b
    }
}

/// Executable saturating addition on totals.
pub fn u64_sat_add(a: u64, b: u64) -> (r: u64)
    ensures
        r == sat_add64(a as int, b as int),
{
    if a <= u64::MAX - b {
        a + b
    } else {
        u64::MAX
    }
}

/// The totals as mathematical pairs.
pub open spec fn total_views(ts: Seq<(String, u64)>) -> Seq<(Seq<char>, int)> {
    ts.map(|i: int, t: (String, u64)| (t.0@, t.1 as int))
}

/// One confirmed amount added to its currency's total (saturating), or a
/// fresh total appended.
pub open spec fn add_total(ts: Seq<(Seq<char>, int)>, cur: Seq<char>, amount: int) -> Seq<
    (Seq<char>, int),
> {
    match find_key(ts, cur, 0) {
        Some(j) => ts.update(j, (cur, sat_add64(ts[j].1, amount))),
        None => ts.push((cur, amount)),
    }
}

/// Totals after folding a payment list: only confirmed payments
/// contribute.
pub open spec fn fold_totals(ts: Seq<(Seq<char>, int)>, ps: Seq<Payment>) -> Seq<(Seq<char>, int)>
    decreases ps.len(),
{
    if ps.len() == 0 {
        ts
    } else {
        let prev = fold_totals(ts, ps.drop_last());
        if confirmed(ps.last()) {
            add_total(prev, ps.last().currency@, ps.last().amount as int)
        } else {
            prev
        }
    }
}

/// The total recorded for a currency.
pub open spec fn total_at(ts: Seq<(Seq<char>, int)>, cur: Seq<char>) -> Option<int> {
    match find_key(ts, cur, 0) {
        Some(j) => Some(ts[j].1),
        None => None,
    }
}

/// Sum of the confirmed amounts in one currency.
pub open spec fn sum_confirmed(ps: Seq<Payment>, cur: Seq<char>) -> int
    decreases ps.len(),
{
    if ps.len() == 0 {
        0
    } else {
        sum_confirmed(ps.drop_last(), cur) + if confirmed(ps.last()) && ps.last().currency@ == cur {
            ps.last().amount as int
        } else {
            0
        }
    }
}

/// Some confirmed payment of the list uses this currency.
pub open spec fn has_confirmed(ps: Seq<Payment>, cur: Seq<char>) -> bool
    decreases ps.len(),
{
    if ps.len() == 0 {
        false
    } else {
        has_confirmed(ps.drop_last(), cur) || (confirmed(ps.last()) && ps.last().currency@ == cur)
    }
}

proof fn lemma_find_key_same_keys(
    ts1: Seq<(Seq<char>, int)>,
    ts2: Seq<(Seq<char>, int)>,
    cur: Seq<char>,
    i: int,
)
    requires
        ts1.len() == ts2.len(),
        forall|k: int| 0 <= k < ts1.len() ==> (#[trigger] ts1[k]).0 == ts2[k].0,
        0 <= i <= ts1.len(),
    ensures
        find_key(ts1, cur, i) == find_key(ts2, cur, i),
    decreases ts1.len() - i,
{
    if i < ts1.len() && ts1[i].0 != cur {
        lemma_find_key_same_keys(ts1, ts2, cur, i + 1);
    }
}

proof fn lemma_find_key_push(ts: Seq<(Seq<char>, int)>, e: (Seq<char>, int), cur: Seq<char>, i: int)
    requires
        0 <= i <= ts.len(),
    ensures
        find_key(ts.push(e), cur, i) == match find_key(ts, cur, i) {
            Some(j) => Some(j),
            None => if e.0 == cur {
                Some(ts.len() as int)
            } else {
                None
            },
        },
    decreases ts.len() - i,
{
    let tp = ts.push(e);
    if i < ts.len() {
        assert(tp[i] == ts[i]);
        if ts[i].0 != cur {
            lemma_find_key_push(ts, e, cur, i + 1);
        }
    } else {
        assert(tp[i] == e);
        if e.0 != cur {
            assert(find_key(tp, cur, i + 1) is None);
        }
    }
}

/// What one `add_total` does to each currency's recorded total.
proof fn lemma_total_at_add(ts: Seq<(Seq<char>, int)>, cur: Seq<char>, amount: int, q: Seq<char>)
    ensures
        q == cur ==> total_at(add_total(ts, cur, amount), q) == Some(
            match total_at(ts, cur) {
                Some(v) => sat_add64(v, amount),
                None => amount,
            },
        ),
        q != cur ==> total_at(add_total(ts, cur, amount), q) == total_at(ts, q),
{
    lemma_find_key_props(ts, cur, 0);
    match find_key(ts, cur, 0) {
        Some(j) => {
            let r = ts.update(j, (cur, sat_add64(ts[j].1, amount)));
            lemma_find_key_same_keys(ts, r, q, 0);
            lemma_find_key_props(ts, q, 0);
            if q == cur {
            } else {
                match find_key(ts, q, 0) {
                    Some(i) => {
                        assert(ts[i].0 == q);
                        assert(i != j);
                    },
                    None => {},
                }
            }
        },
        None => {
            let r = ts.push((cur, amount));
            lemma_find_key_push(ts, (cur, amount), q, 0);
            lemma_find_key_props(ts, q, 0);
            if q == cur {
                match find_key(ts, q, 0) {
                    Some(i) => {
                        assert(ts[i].0 == cur);
                        lemma_find_key_props(ts, cur, 0);
                    },
                    None => {
                        assert(r[ts.len() as int].1 == amount);
                    },
                }
            }
        },
    }
}

/// Saturating addition composes: saturating early loses nothing.
proof fn lemma_sat_compose(a: int, b: int)
    requires
        0 <= a,
        0 <= b,
    ensures
        sat_add64(sat_add64(a, 0), b) == sat_add64(a + b, 0),
        sat_add64(a, b) == sat_add64(a + b, 0),
{
}

/// The recorded total of every currency is the saturated sum of its
/// confirmed amounts, and a currency is recorded exactly where some
/// confirmed payment uses it. Status codes other than one never
/// contribute.
pub proof fn lemma_totals_correct(ps: Seq<Payment>, cur: Seq<char>)
    ensures
        has_confirmed(ps, cur) ==> total_at(fold_totals(Seq::empty(), ps), cur) == Some(
            sat_add64(sum_confirmed(ps, cur), 0),
        ),
        !has_confirmed(ps, cur) ==> total_at(fold_totals(Seq::empty(), ps), cur) is None
            && sum_confirmed(ps, cur) == 0,
    decreases ps.len(),
{
    if ps.len() == 0 {
    } else {
        let prev = fold_totals(Seq::empty(), ps.drop_last());
        lemma_totals_correct(ps.drop_last(), cur);
        let last = ps.last();
        if confirmed(last) {
            lemma_total_at_add(prev, last.currency@, last.amount as int, cur);
            if last.currency@ == cur {
                if has_confirmed(ps.drop_last(), cur) {
                    lemma_sum_confirmed_nonneg(ps.drop_last(), cur);
                } else {
                }
            }
        }
    }
}

/// Confirmed sums are never negative.
pub proof fn lemma_sum_confirmed_nonneg(ps: Seq<Payment>, cur: Seq<char>)
    ensures
        sum_confirmed(ps, cur) >= 0,
    decreases ps.len(),
{
    if ps.len() > 0 {
        lemma_sum_confirmed_nonneg(ps.drop_last(), cur);
    }
}

/// Position `a` is rendered before position `b`: an earlier creation
/// time, or the same time and an earlier position.
pub open spec fn time_before(ps: Seq<Payment>, a: int, b: int) -> bool {
    lex_le(ps[a].created_at@, ps[b].created_at@) && (!lex_le(ps[b].created_at@, ps[a].created_at@)
        || a < b)
}

/// `ord` lists every payment exactly once, in rendering order.
pub open spec fn is_stable_time_order(ps: Seq<Payment>, ord: Seq<usize>) -> bool {
    &&& ord.len() == ps.len()
    &&& forall|i: int| 0 <= i < ord.len() ==> (#[trigger] ord[i]) < ps.len()
    &&& forall|i: int, j: int|
        0 <= i < j < ord.len() ==> time_before(ps, #[trigger] ord[i] as int, #[trigger] ord[j] as int)
}

/// Order payment positions by creation time, ascending, stable.
#[verifier::loop_isolation(false)]
fn stable_time_order(ps: &Vec<Payment>) -> (ord: Vec<usize>)
    ensures
        is_stable_time_order(ps@, ord@),
{
    let n = ps.len();
    let mut ord: Vec<usize> = Vec::new();
    let mut idx: usize = 0;
    while idx < n
        invariant
            idx <= n,
            ord@.len() == idx,
            forall|i: int| 0 <= i < ord@.len() ==> (#[trigger] ord@[i]) < idx,
            forall|i: int, j: int|
                0 <= i < j < ord@.len() ==> time_before(
                    ps@,
                    #[trigger] ord@[i] as int,
                    #[trigger] ord@[j] as int,
                ),
        decreases n - idx,
    {
        let key = chars_of(ps[idx].created_at.as_str());
        // find the first position whose time is strictly later
        let mut p: usize = 0;
        while p < ord.len() && lex_le_chars(&chars_of(ps[ord[p]].created_at.as_str()), &key)
            invariant
                p <= ord@.len(),
                key@ == ps@[idx as int].created_at@,
                forall|i: int|
                    0 <= i < p ==> lex_le(
                        ps@[#[trigger] ord@[i] as int].created_at@,
                        ps@[idx as int].created_at@,
                    ),
            decreases ord@.len() - p,
        {
            p += 1;
        }
        let ghost before = ord@;
        ord.insert(p, idx);
        proof {
            assert forall|i: int, j: int|
                0 <= i < j < ord@.len() implies time_before(
                ps@,
                #[trigger] ord@[i] as int,
                #[trigger] ord@[j] as int,
            ) by {
                if j < p {
                    assert(ord@[i] == before[i] && ord@[j] == before[j]);
                } else if j == p {
                    assert(ord@[i] == before[i]);
                    assert(ord@[j] == idx);
                } else {
                    assert(ord@[j] == before[j - 1]);
                    if i < p {
                        assert(ord@[i] == before[i]);
                    } else if i == p {
                        assert(ord@[i] == idx);
                        let e = before[j - 1] as int;
                        assert(!lex_le(ps@[e].created_at@, ps@[idx as int].created_at@)) by {
                            if j - 1 > p {
                                assert(time_before(ps@, before[p as int] as int, e));
                                lemma_lex_total(
                                    ps@[before[p as int] as int].created_at@,
                                    ps@[idx as int].created_at@,
                                );
                                if lex_le(ps@[e].created_at@, ps@[idx as int].created_at@) {
                                    lemma_lex_trans(
                                        ps@[before[p as int] as int].created_at@,
                                        ps@[e].created_at@,
                                        ps@[idx as int].created_at@,
                                    );
                                }
                            }
                        }
                        lemma_lex_total(ps@[e].created_at@, ps@[idx as int].created_at@);
                    } else {
                        assert(ord@[i] == before[i - 1]);
                    }
                }
            }
        }
        idx += 1;
    }
    ord
}

/// Lexicographic order is transitive.
pub proof fn lemma_lex_trans(a: Seq<char>, b: Seq<char>, c: Seq<char>)
    requires
        lex_le(a, b),
        lex_le(b, c),
    ensures
        lex_le(a, c),
    decreases a.len(),
{
    if a.len() > 0 && b.len() > 0 && c.len() > 0 {
        if (a[0] as u32) == (b[0] as u32) && (b[0] as u32) == (c[0] as u32) {
            lemma_lex_trans(a.drop_first(), b.drop_first(), c.drop_first());
        }
    }
}

/// The rendered money amount: major units, a point, and two minor-unit
/// digits.
pub open spec fn money_text(amount: int) -> Seq<char> {
    dec_digits((amount / 100) as nat) + seq!['.'] + seq![
        ((amount % 100) / 10 + 48) as u32 as char,
        ((amount % 10) + 48) as u32 as char,
    ]
}

/// Render a minor-unit amount as major units with two decimals.
pub fn render_money(amount: u64) -> (r: String)
    ensures
        r@ == money_text(amount as int),
{
    let mut r = String::new();
    push_u64(&mut r, amount / 100);
    r.append(".");
    proof {
        reveal_strlit(".");
        assert("."@ =~= seq!['.']);
    }
    r.append(digit_str((amount % 100) / 10));
    r.append(digit_str(amount % 10));
    proof {
        assert(r@ =~= money_text(amount as int));
    }
    r
}

/// What the case mapper returns for a currency code; depends on the text
/// alone.
pub uninterp spec fn upper_of(s: Seq<char>) -> Seq<char>;

/// Relies on str::to_uppercase: the uppercase form of a text.
#[verifier::external_body]
fn to_upper(s: &str) -> (r: String)
    ensures
        r@ == upper_of(s@),
{
    s.to_uppercase()
}

/// One rendered payment line: the description, then the uppercased
/// currency and the amount in parentheses.
pub open spec fn rendered_payment(p: Payment) -> Seq<char> {
    p.description@ + " ("@ + upper_of(p.currency@) + " "@ + money_text(p.amount as int) + ")"@
}

/// The rendered history: every line joined with the fixed break marker.
pub open spec fn rendered_list(ps: Seq<Payment>) -> Seq<char>
    decreases ps.len(),
{
    if ps.len() == 0 {
        Seq::empty()
    } else if ps.len() == 1 {
        rendered_payment(ps[0])
    } else {
        rendered_list(ps.drop_last()) + "<br>"@ + rendered_payment(ps.last())
    }
}

/// The payments taken in a given order.
pub open spec fn reorder(ps: Seq<Payment>, ord: Seq<usize>) -> Seq<Payment> {
    Seq::new(ord.len(), |i: int| ps[ord[i] as int])
}

/// The history text is the confirmed payments rendered in stable
/// time-ascending order.
pub open spec fn is_rendered_history(ps: Seq<Payment>, out: Seq<char>) -> bool {
    exists|ord: Seq<usize>|
        #[trigger] is_stable_time_order(confirmed_of(ps), ord) && out == rendered_list(
            reorder(confirmed_of(ps), ord),
        )
}

/// Render one payment line.
fn render_payment(p: &Payment) -> (r: String)
    ensures
        r@ == rendered_payment(*p),
{
    let mut r = p.description.clone();
    r.append(" (");
    let up = to_upper(p.currency.as_str());
    r.append(up.as_str());
    r.append(" ");
    let money = render_money(p.amount);
    r.append(money.as_str());
    r.append(")");
    proof {
        assert(r@ =~= rendered_payment(*p));
    }
    r
}

/// An exact copy of a payment record.
fn clone_payment(p: &Payment) -> (r: Payment)
    ensures
        r == *p,
{
    Payment {
        amount: p.amount,
        currency: p.currency.clone(),
        status: p.status,
        created_at: p.created_at.clone(),
        description: p.description.clone(),
    }
}

/// Filter a user's payments to the confirmed ones, accumulate the
/// per-currency totals in minor units, and render the chronological
/// history. Without confirmed payments the totals and the history stay
/// empty.
#[verifier::loop_isolation(false)]
pub fn process_payments(info: &mut PaymentInfo, user: &User)
    requires
        old(info).total@.len() == 0,
        old(info).list@.len() == 0,
    ensures
        total_views(final(info).total@) == fold_totals(
            Seq::<(Seq<char>, int)>::empty(),
            user.payments@,
        ),
        is_rendered_history(user.payments@, final(info).list@) || (confirmed_of(user.payments@)
            =~= Seq::<Payment>::empty() && final(info).list@ =~= Seq::<char>::empty()),
{
    let mut conf: Vec<Payment> = Vec::new();
    let mut i: usize = 0;
    while i < user.payments.len()
        invariant
            i <= user.payments@.len(),
            conf@ == confirmed_of(user.payments@.subrange(0, i as int)),
            info == old(info),
        decreases user.payments@.len() - i,
    {
        let ghost pre = user.payments@.subrange(0, i as int);
        let ghost pre1 = user.payments@.subrange(0, i + 1);
        proof {
            assert(pre1.drop_last() =~= pre);
            assert(pre1.last() == user.payments@[i as int]);
        }
        if user.payments[i].status == 1 {
            conf.push(clone_payment(&user.payments[i]));
            proof {
                assert(conf@ =~= confirmed_of(pre1));
            }
        } else {
            proof {
                assert(conf@ =~= confirmed_of(pre1));
            }
        }
        i += 1;
    }
    proof {
        assert(user.payments@.subrange(0, user.payments@.len() as int) =~= user.payments@);
    }
    if conf.len() == 0 {
        proof {
            lemma_fold_totals_confirmed(user.payments@, conf@);
            assert(total_views(info.total@) =~= Seq::<(Seq<char>, int)>::empty());
            assert(conf@ =~= Seq::<Payment>::empty());
        }
        return ;
    }
    // per-currency totals over the confirmed payments, in order
    let mut j: usize = 0;
    while j < conf.len()
        invariant
            j <= conf@.len(),
            total_views(info.total@) == fold_totals(
                Seq::<(Seq<char>, int)>::empty(),
                conf@.subrange(0, j as int),
            ),
            info.list@.len() == 0,
        decreases conf@.len() - j,
    {
        let ghost pre = conf@.subrange(0, j as int);
        let ghost pre1 = conf@.subrange(0, j + 1);
        proof {
            assert(pre1.drop_last() =~= pre);
            assert(pre1.last() == conf@[j as int]);
            assert(confirmed(conf@[j as int])) by {
                lemma_confirmed_all(user.payments@, conf@, j as int);
            }
        }
        add_to_totals(&mut info.total, &conf[j].currency, conf[j].amount);
        j += 1;
    }
    proof {
        assert(conf@.subrange(0, conf@.len() as int) =~= conf@);
        lemma_fold_totals_confirmed(user.payments@, conf@);
    }
    // chronological rendering
    let ord = stable_time_order(&conf);
    let mut out = String::new();
    let mut k: usize = 0;
    while k < ord.len()
        invariant
            k <= ord@.len(),
            is_stable_time_order(conf@, ord@),
            out@ == rendered_list(reorder(conf@, ord@).take(k as int)),
            total_views(info.total@) == fold_totals(
                Seq::<(Seq<char>, int)>::empty(),
                user.payments@,
            ),
        decreases ord@.len() - k,
    {
        let ghost sofar = reorder(conf@, ord@).take(k as int);
        let ghost sofar1 = reorder(conf@, ord@).take(k + 1);
        proof {
            assert(sofar1.drop_last() =~= sofar);
            assert(sofar1.last() == conf@[ord@[k as int] as int]);
        }
        if k > 0 {
            out.append("<br>");
        }
        let line = render_payment(&conf[ord[k]]);
        out.append(line.as_str());
        proof {
            if k == 0 {
                assert(out@ =~= rendered_list(sofar1));
            } else {
                assert(out@ =~= rendered_list(sofar) + "<br>"@ + rendered_payment(sofar1.last()));
                assert(out@ =~= rendered_list(sofar1));
            }
        }
        k += 1;
    }
    info.list = out;
    proof {
        assert(reorder(conf@, ord@).take(ord@.len() as int) =~= reorder(conf@, ord@));
        assert(conf@ =~= confirmed_of(user.payments@));
        assert(is_rendered_history(user.payments@, info.list@));
    }
}

/// Add one confirmed amount into the totals.
#[verifier::loop_isolation(false)]
fn add_to_totals(totals: &mut Vec<(String, u64)>, cur: &String, amount: u64)
    ensures
        total_views(final(totals)@) == add_total(total_views(old(totals)@), cur@, amount as int),
{
    let ghost ts = total_views(totals@);
    let mut j: usize = 0;
    while j < totals.len()
        invariant
            j <= totals@.len(),
            totals@ == old(totals)@,
            forall|k: int| 0 <= k < j ==> (#[trigger] ts[k]).0 != cur@,
        decreases totals@.len() - j,
    {
        if totals[j].0 == *cur {
            proof {
                assert(ts[j as int].0 == cur@);
                lemma_find_key_advance(ts, cur@, j as int);
            }
            let v = totals[j].1;
            totals[j].1 = u64_sat_add(v, amount);
            proof {
                assert(total_views(totals@) =~~= ts.update(
                    j as int,
                    (cur@, sat_add64(ts[j as int].1, amount as int)),
                ));
            }
            return ;
        }
        proof {
            assert(ts[j as int] == (totals@[j as int].0@, totals@[j as int].1 as int));
        }
        j += 1;
    }
    proof {
        lemma_find_key_advance(ts, cur@, totals@.len() as int);
    }
    totals.push((cur.clone(), amount));
    proof {
        assert(total_views(totals@) =~~= ts.push((cur@, amount as int)));
    }
}

/// Every element of the confirmed sublist is confirmed.
proof fn lemma_confirmed_all(ps: Seq<Payment>, conf: Seq<Payment>, j: int)
    requires
        conf == confirmed_of(ps),
        0 <= j < conf.len(),
    ensures
        confirmed(conf[j]),
    decreases ps.len(),
{
    if ps.len() > 0 {
        let prev = confirmed_of(ps.drop_last());
        if j < prev.len() {
            lemma_confirmed_all(ps.drop_last(), prev, j);
        }
    }
}

/// Folding the whole payment list equals folding just its confirmed
/// sublist: the skipped payments contribute nothing.
proof fn lemma_fold_totals_confirmed(ps: Seq<Payment>, conf: Seq<Payment>)
    requires
        conf == confirmed_of(ps),
    ensures
        fold_totals(Seq::<(Seq<char>, int)>::empty(), conf) == fold_totals(
            Seq::<(Seq<char>, int)>::empty(),
            ps,
        ),
    decreases ps.len(),
{
    if ps.len() > 0 {
        lemma_fold_totals_confirmed(ps.drop_last(), confirmed_of(ps.drop_last()));
        if confirmed(ps.last()) {
            let c = confirmed_of(ps);
            assert(c.drop_last() =~= confirmed_of(ps.drop_last()));
            assert(c.last() == ps.last());
        }
    }
}

} // verus!
