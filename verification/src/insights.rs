//! Account insights (privacy posture and the billing timeline), the DM and
//! group-DM social summary, and servers ranked by engagement.
use vstd::prelude::*;
use crate::counts::{sat_u64, CountMap, Item, U32Counts};
use crate::dates::{normalize_iso, normalize_iso_spec};
use crate::json::{
    members_get, get, num_i64, num_i64_spec, num_u32, num_u32_spec, obj_get, plain_text, str_or, str_or_spec,
    value_to_plain_string, JsonValue,
};
use crate::messages::ChannelAnalysisCache;
use crate::order::{as_ints, key_before, key_view, key_views, sort_order, stable_order, KeyView, SortKey};
use crate::patterns::opt_view;
use crate::text::{
    copy_str, has_prefix, seq_less, starts_with, str_eq, str_less, to_ascii_uppercase, upper_seq,
};
use crate::counts::{lemma_seq_less_irreflexive, lemma_seq_less_total, lemma_seq_less_transitive};

verus! {

// ---------------------------------------------------------------------------
// Privacy posture
// ---------------------------------------------------------------------------

/// Privacy posture: presence flags only, never the contact details.
pub struct PrivacyInsights {
    pub email_verified: bool,
    pub mfa_enabled: bool,
    pub has_phone: bool,
    pub has_payment_source: bool,
    pub payment_sources: u64,
    pub data_access_requests: u64,
    pub account_flags: Vec<String>,
    pub premium_until: Option<String>,
}

/// The string items of a JSON array, in order.
pub open spec fn string_items(items: Seq<JsonValue>) -> Seq<Seq<char>>
    decreases items.len(),
{
    if items.len() == 0 {
        Seq::empty()
    } else {
        let rest = string_items(items.drop_last());
        match items.last() {
            JsonValue::Str(s) => rest.push(s@),
            _ => rest,
        }
    }
}

pub open spec fn user_flags(user: JsonValue) -> Seq<Seq<char>> {
    match obj_get(user, "flags"@) {
        Some(JsonValue::Array(items, _)) => string_items(items@),
        _ => Seq::empty(),
    }
}

pub open spec fn user_verified(user: JsonValue) -> bool {
    match obj_get(user, "verified"@) {
        Some(JsonValue::Bool(b)) => b,
        _ => false,
    }
}

pub open spec fn user_has_phone(user: JsonValue) -> bool {
    match obj_get(user, "phone"@) {
        Some(p) => match plain_text(p) {
            Some(s) => s.len() > 0,
            None => false,
        },
        None => false,
    }
}

pub open spec fn user_premium_until(user: JsonValue) -> Option<Seq<char>> {
    match obj_get(user, "premium_until"@) {
        Some(p) => match plain_text(p) {
            Some(s) => if s != "null"@ && s.len() > 0 {
                Some(s)
            } else {
                None
            },
            None => None,
        },
        None => None,
    }
}

/// The number of records an export file declares: its `record_count`, else
/// the length of its `records` array, else zero.
pub open spec fn record_count_spec(doc: Option<JsonValue>) -> u64 {
    match doc {
        Some(v) => match obj_get(v, "record_count"@) {
            Some(JsonValue::Number(n)) if n.as_u64 is Some => n.as_u64.unwrap(),
            _ => match obj_get(v, "records"@) {
                Some(JsonValue::Array(items, _)) => items@.len() as u64,
                _ => 0,
            },
        },
        None => 0,
    }
}

pub open spec fn opt_ref(doc: Option<&JsonValue>) -> Option<JsonValue> {
    match doc {
        Some(x) => Some(*x),
        None => None,
    }
}

pub fn record_count(doc: Option<&JsonValue>) -> (r: u64)
    ensures
        r == record_count_spec(opt_ref(doc)),
{
    match doc {
        Some(v) => {
            match get(v, "record_count") {
                Some(JsonValue::Number(n)) => {
                    if let Some(c) = n.as_u64 {
                        return c;
                    }
                },
                _ => {},
            }
            match get(v, "records") {
                Some(JsonValue::Array(items, _)) => items.len() as u64,
                _ => 0,
            }
        },
        None => 0,
    }
}

fn string_items_of(items: &Vec<JsonValue>) -> (r: Vec<String>)
    ensures
        r@.map_values(|s: String| s@) == string_items(items@),
{
    let mut r: Vec<String> = Vec::new();
    let mut i: usize = 0;
    while i < items.len()
        invariant
            i <= items.len(),
            r@.map_values(|s: String| s@) == string_items(items@.take(i as int)),
        decreases items.len() - i,
    {
        let ghost before = r@.map_values(|s: String| s@);
        assert(items@.take(i + 1).drop_last() =~= items@.take(i as int));
        match &items[i] {
            JsonValue::Str(s) => {
                r.push(s.clone());
                assert(r@.map_values(|s: String| s@) =~= before.push(s@));
            },
            _ => {},
        }
        i += 1;
    }
    assert(items@.take(items@.len() as int) =~= items@);
    r
}

/// Privacy flags from `user.json` (`None` when it could not be read), with
/// the record counts of the payment-source and data-request files.
pub fn privacy_from(user: Option<&JsonValue>, payment_sources: u64, data_access_requests: u64) -> (p:
    PrivacyInsights)
    ensures
        p.payment_sources == payment_sources,
        p.has_payment_source == (payment_sources > 0),
        p.data_access_requests == data_access_requests,
        match user {
            Some(u) => {
                &&& p.email_verified == user_verified(*u)
                &&& p.has_phone == user_has_phone(*u)
                &&& opt_view(p.premium_until) == user_premium_until(*u)
                &&& p.account_flags@.map_values(|s: String| s@) == user_flags(*u)
                &&& p.mfa_enabled == exists|i: int|
                    0 <= i < user_flags(*u).len() && has_prefix(#[trigger] user_flags(*u)[i], "MFA_"@)
            },
            None => {
                &&& !p.email_verified && !p.has_phone && !p.mfa_enabled
                &&& p.premium_until is None
                &&& p.account_flags@.len() == 0
            },
        },
{
    let mut p = PrivacyInsights {
        email_verified: false,
        mfa_enabled: false,
        has_phone: false,
        has_payment_source: payment_sources > 0,
        payment_sources,
        data_access_requests,
        account_flags: Vec::new(),
        premium_until: None,
    };
    if let Some(u) = user {
        p.email_verified = match get(u, "verified") {
            Some(JsonValue::Bool(b)) => *b,
            _ => false,
        };
        p.has_phone = match get(u, "phone") {
            Some(ph) => match value_to_plain_string(ph) {
                Some(s) => !s.as_str().is_empty(),
                None => false,
            },
            None => false,
        };
        p.premium_until = match get(u, "premium_until") {
            Some(x) => match value_to_plain_string(x) {
                Some(s) => {
                    proof {
                        reveal_strlit("null");
                    }
                    if !str_eq(s.as_str(), "null") && !s.as_str().is_empty() {
                        Some(s)
                    } else {
                        None
                    }
                },
                None => None,
            },
            None => None,
        };
        match get(u, "flags") {
            Some(JsonValue::Array(items, _)) => {
                p.account_flags = string_items_of(items);
            },
            _ => {},
        }
        let ghost flags = user_flags(*u);
        assert(p.account_flags@.map_values(|s: String| s@) == flags);
        let mut mfa = false;
        let mut i: usize = 0;
        while i < p.account_flags.len()
            invariant
                i <= p.account_flags@.len(),
                p.account_flags@.map_values(|s: String| s@) == flags,
                mfa == exists|k: int| 0 <= k < i && has_prefix(#[trigger] flags[k], "MFA_"@),
            decreases p.account_flags@.len() - i,
        {
            assert(flags[i as int] == p.account_flags@[i as int]@);
            if starts_with(p.account_flags[i].as_str(), "MFA_") {
                mfa = true;
            }
            i += 1;
        }
        p.mfa_enabled = mfa;
    }
    p
}

// ---------------------------------------------------------------------------
// Billing timeline
// ---------------------------------------------------------------------------

/// One payment in the billing timeline.
pub struct PaymentEntry {
    pub date: String,
    pub description: String,
    pub amount: i64,
    pub currency: String,
    /// Gateway code (1 Stripe, 3 Apple, 4 Google, 8 virtual currency, ...).
    pub gateway: u32,
    pub refunded: i64,
}

/// Billing totals and the timeline, newest first.
pub struct BillingInsights {
    pub payments_total: u64,
    /// (currency, total amount), by currency.
    pub totals_by_currency: Vec<(String, i64)>,
    /// Gateway code -> payments.
    pub by_gateway: U32Counts,
    pub timeline: Vec<PaymentEntry>,
    pub entitlements_count: u64,
    pub coin_transactions: u64,
}

/// The entry a payment record describes.
pub open spec fn payment_spec(rec: JsonValue, p: PaymentEntry) -> bool {
    &&& p.amount == match num_i64_spec(obj_get(rec, "amount"@)) {
        Some(a) => a,
        None => 0,
    }
    &&& p.currency@ == str_or_spec(obj_get(rec, "currency"@), "unknown"@)
    &&& p.date@ == normalize_iso_spec(str_or_spec(obj_get(rec, "created_at"@), ""@))
    &&& p.description@ == str_or_spec(obj_get(rec, "description"@), "(no description)"@)
    &&& p.gateway == match num_u32_spec(obj_get(rec, "payment_gateway"@)) {
        Some(g) => g,
        None => 0,
    }
    &&& p.refunded == match num_i64_spec(obj_get(rec, "amount_refunded"@)) {
        Some(a) => a,
        None => 0,
    }
}

pub fn payment_entry(rec: &JsonValue) -> (p: PaymentEntry)
    ensures
        payment_spec(*rec, p),
{
    let amount = match num_i64(get(rec, "amount")) {
        Some(a) => a,
        None => 0,
    };
    let currency = str_or(get(rec, "currency"), "unknown");
    let created = str_or(get(rec, "created_at"), "");
    let date = normalize_iso(created.as_str());
    let description = str_or(get(rec, "description"), "(no description)");
    let gateway = match num_u32(get(rec, "payment_gateway")) {
        Some(g) => g,
        None => 0,
    };
    let refunded = match num_i64(get(rec, "amount_refunded")) {
        Some(a) => a,
        None => 0,
    };
    PaymentEntry { date, description, amount, currency, gateway, refunded }
}

/// `x` clamped into `i64`: currency totals saturate rather than wrap.
pub open spec fn sat_i64(x: int) -> i64 {
    if x > i64::MAX {
        i64::MAX
    } else if x < i64::MIN {
        i64::MIN
    } else {
        x as i64
    }
}

/// Saturating total of the amounts paid in currency `c`.
pub open spec fn currency_total(ps: Seq<PaymentEntry>, c: Seq<char>) -> i64
    decreases ps.len(),
{
    if ps.len() == 0 {
        0
    } else {
        let t = currency_total(ps.drop_last(), c);
        if ps.last().currency@ == c {
            sat_i64(t + ps.last().amount)
        } else {
            t
        }
    }
}

/// `c` is the currency of some payment.
pub open spec fn has_currency(ps: Seq<PaymentEntry>, c: Seq<char>) -> bool {
    exists|i: int| 0 <= i < ps.len() && (#[trigger] ps[i]).currency@ == c
}

/// Payments per gateway.
pub open spec fn gateway_counts(ps: Seq<PaymentEntry>) -> Map<u32, u64>
    decreases ps.len(),
{
    if ps.len() == 0 {
        Map::empty()
    } else {
        let m = gateway_counts(ps.drop_last());
        let g = ps.last().gateway;
        m.insert(g, sat_u64((if m.contains_key(g) { m[g] } else { 0 }) + 1))
    }
}

/// `totals` lists each currency of `ps` once, in alphabetical order, with
/// its total.
pub open spec fn currency_table(ps: Seq<PaymentEntry>, totals: Seq<(String, i64)>) -> bool {
    &&& forall|i: int, j: int|
        0 <= i < j < totals.len() ==> seq_less((#[trigger] totals[i]).0@, (#[trigger] totals[j]).0@)
    &&& forall|c: Seq<char>|
        has_currency(ps, c) <==> exists|k: int| 0 <= k < totals.len() && (#[trigger] totals[k]).0@ == c
    &&& forall|k: int| 0 <= k < totals.len() ==> (#[trigger] totals[k]).1 == currency_total(ps, totals[k].0@)
}

fn add_sat_i64(a: i64, b: i64) -> (r: i64)
    ensures
        r == sat_i64(a + b),
{
    if b > 0 && a > i64::MAX - b {
        i64::MAX
    } else if b < 0 && a < i64::MIN - b {
        i64::MIN
    } else {
        a + b
    }
}

/// Adds one payment into the alphabetical currency table.
fn add_to_table(totals: &mut Vec<(String, i64)>, ps: Ghost<Seq<PaymentEntry>>, p: &PaymentEntry)
    requires
        currency_table(ps@, old(totals)@),
    ensures
        currency_table(ps@.push(*p), final(totals)@),
{
    let ghost ps2 = ps@.push(*p);
    let ghost old_t = totals@;
    assert(ps2.drop_last() =~= ps@);
    let mut k: usize = 0;
    while k < totals.len() && str_less(totals[k].0.as_str(), p.currency.as_str())
        invariant
            k <= totals@.len(),
            totals@ == old_t,
            forall|q: int| 0 <= q < k ==> seq_less((#[trigger] totals@[q]).0@, p.currency@),
        decreases totals@.len() - k,
    {
        k += 1;
    }
    if k < totals.len() && str_eq(totals[k].0.as_str(), p.currency.as_str()) {
        let t = add_sat_i64(totals[k].1, p.amount);
        let name = totals[k].0.clone();
        totals.set(k, (name, t));
        proof {
            assert forall|i: int, j: int| 0 <= i < j < totals@.len() implies seq_less(
                (#[trigger] totals@[i]).0@,
                (#[trigger] totals@[j]).0@,
            ) by {
                assert(seq_less(old_t[i].0@, old_t[j].0@));
            }
            assert forall|c: Seq<char>| has_currency(ps2, c) <==> exists|q: int|
                0 <= q < totals@.len() && (#[trigger] totals@[q]).0@ == c by {
                if has_currency(ps2, c) {
                    let i = choose|i: int| 0 <= i < ps2.len() && (#[trigger] ps2[i]).currency@ == c;
                    if i < ps@.len() {
                        assert(ps@[i] == ps2[i]);
                        assert(has_currency(ps@, c));
                        let q = choose|q: int| 0 <= q < old_t.len() && (#[trigger] old_t[q]).0@ == c;
                        assert(totals@[q].0@ == c);
                    } else {
                        assert(totals@[k as int].0@ == c);
                    }
                }
                if exists|q: int| 0 <= q < totals@.len() && (#[trigger] totals@[q]).0@ == c {
                    let q = choose|q: int| 0 <= q < totals@.len() && (#[trigger] totals@[q]).0@ == c;
                    assert(old_t[q].0@ == c);
                    assert(has_currency(ps@, c));
                    let i = choose|i: int| 0 <= i < ps@.len() && (#[trigger] ps@[i]).currency@ == c;
                    assert(ps2[i] == ps@[i]);
                }
            }
            assert forall|q: int| 0 <= q < totals@.len() implies (#[trigger] totals@[q]).1
                == currency_total(ps2, totals@[q].0@) by {
                if q != k {
                    assert(old_t[q].0@ != p.currency@) by {
                        if q < k {
                            lemma_seq_less_irreflexive(p.currency@);
                        } else {
                            assert(seq_less(old_t[k as int].0@, old_t[q].0@));
                            lemma_seq_less_irreflexive(p.currency@);
                        }
                    }
                }
            }
        }
    } else {
        let ghost before = totals@;
        totals.insert(k, (p.currency.clone(), sat_i64_of(p.amount)));
        proof {
            assert(totals@ =~= before.insert(k as int, (p.currency, p.amount)));
            if k < before.len() {
                lemma_seq_less_total(before[k as int].0@, p.currency@);
            }
            assert(!has_currency(ps@, p.currency@)) by {
                if has_currency(ps@, p.currency@) {
                    let q = choose|q: int| 0 <= q < old_t.len() && (#[trigger] old_t[q]).0@ == p.currency@;
                    if q < k {
                        lemma_seq_less_irreflexive(p.currency@);
                    } else if q > k {
                        assert(seq_less(old_t[k as int].0@, old_t[q].0@));
                        lemma_seq_less_transitive(p.currency@, old_t[k as int].0@, p.currency@);
                        lemma_seq_less_irreflexive(p.currency@);
                    }
                }
            }
            lemma_total_absent(ps@, p.currency@);
            assert forall|i: int, j: int| 0 <= i < j < totals@.len() implies seq_less(
                (#[trigger] totals@[i]).0@,
                (#[trigger] totals@[j]).0@,
            ) by {
                if j < k {
                } else if i < k && j == k {
                } else if i < k && j > k {
                    assert(totals@[j] == before[j - 1]);
                    if j - 1 == k {
                    } else {
                        assert(seq_less(before[k as int].0@, before[j - 1].0@));
                    }
                    lemma_seq_less_transitive(before[i].0@, p.currency@, before[k as int].0@);
                    if j - 1 > k {
                        lemma_seq_less_transitive(before[i].0@, before[k as int].0@, before[j - 1].0@);
                    }
                } else if i == k {
                    assert(totals@[j] == before[j - 1]);
                    if j - 1 > k {
                        assert(seq_less(before[k as int].0@, before[j - 1].0@));
                        lemma_seq_less_transitive(p.currency@, before[k as int].0@, before[j - 1].0@);
                    }
                } else {
                    assert(totals@[i] == before[i - 1]);
                    assert(totals@[j] == before[j - 1]);
                }
            }
            assert forall|c: Seq<char>| has_currency(ps2, c) <==> exists|q: int|
                0 <= q < totals@.len() && (#[trigger] totals@[q]).0@ == c by {
                if has_currency(ps2, c) {
                    let i = choose|i: int| 0 <= i < ps2.len() && (#[trigger] ps2[i]).currency@ == c;
                    if i < ps@.len() {
                        assert(ps@[i] == ps2[i]);
                        assert(has_currency(ps@, c));
                        let q = choose|q: int| 0 <= q < old_t.len() && (#[trigger] old_t[q]).0@ == c;
                        if q < k {
                            assert(totals@[q].0@ == c);
                        } else {
                            assert(totals@[q + 1].0@ == c);
                        }
                    } else {
                        assert(totals@[k as int].0@ == c);
                    }
                }
                if exists|q: int| 0 <= q < totals@.len() && (#[trigger] totals@[q]).0@ == c {
                    let q = choose|q: int| 0 <= q < totals@.len() && (#[trigger] totals@[q]).0@ == c;
                    if q == k {
                        assert(ps2[ps@.len() as int].currency@ == c);
                    } else {
                        let q0 = if q < k { q } else { q - 1 };
                        assert(old_t[q0].0@ == c);
                        assert(has_currency(ps@, c));
                        let i = choose|i: int| 0 <= i < ps@.len() && (#[trigger] ps@[i]).currency@ == c;
                        assert(ps2[i] == ps@[i]);
                    }
                }
            }
            assert forall|q: int| 0 <= q < totals@.len() implies (#[trigger] totals@[q]).1
                == currency_total(ps2, totals@[q].0@) by {
                if q == k {
                } else {
                    let q0 = if q < k { q } else { q - 1 };
                    assert(totals@[q] == old_t[q0]);
                    assert(old_t[q0].0@ != p.currency@) by {
                        assert(has_currency(ps@, old_t[q0].0@)) by {
                            assert(old_t[q0].0@ == old_t[q0].0@);
                        }
                    }
                }
            }
        }
    }
}

fn sat_i64_of(a: i64) -> (r: i64)
    ensures
        r == sat_i64(0 + a),
{
    a
}

/// A currency no payment used totals zero.
proof fn lemma_total_absent(ps: Seq<PaymentEntry>, c: Seq<char>)
    requires
        !has_currency(ps, c),
    ensures
        currency_total(ps, c) == 0,
    decreases ps.len(),
{
    if ps.len() > 0 {
        assert(!has_currency(ps.drop_last(), c)) by {
            if has_currency(ps.drop_last(), c) {
                let i = choose|i: int| 0 <= i < ps.drop_last().len() && (#[trigger] ps.drop_last()[i]).currency@ == c;
                assert(ps[i] == ps.drop_last()[i]);
            }
        }
        assert(ps.last() == ps[ps.len() - 1]);
        lemma_total_absent(ps.drop_last(), c);
    }
}

/// The timeline's order: newest date first, then description.
pub open spec fn payment_key(p: PaymentEntry) -> KeyView {
    (0u64, p.date@, Seq::empty(), p.description@, Seq::<char>::empty(), Seq::<char>::empty())
}

pub open spec fn payment_keys(ps: Seq<PaymentEntry>) -> Seq<KeyView> {
    ps.map_values(|p: PaymentEntry| payment_key(p))
}

/// `out` is `ps` stably ordered by `keys`.
pub open spec fn reordered<T>(ps: Seq<T>, keys: Seq<KeyView>, out: Seq<T>) -> bool {
    exists|idx: Seq<int>|
        #[trigger] stable_order(keys, idx) && out.len() == ps.len() && forall|k: int|
            0 <= k < out.len() ==> out[k] == ps[idx[k]]
}

fn copy_payment(p: &PaymentEntry) -> (r: PaymentEntry)
    ensures
        r == *p,
{
    PaymentEntry {
        date: p.date.clone(),
        description: p.description.clone(),
        amount: p.amount,
        currency: p.currency.clone(),
        gateway: p.gateway,
        refunded: p.refunded,
    }
}

/// The payments in timeline order (newest first, ties by description,
/// then as listed).
pub fn sort_payments(ps: &Vec<PaymentEntry>) -> (out: Vec<PaymentEntry>)
    ensures
        reordered(ps@, payment_keys(ps@), out@),
{
    let mut keys: Vec<SortKey> = Vec::new();
    let mut i: usize = 0;
    while i < ps.len()
        invariant
            i <= ps.len(),
            key_views(keys@) == payment_keys(ps@).take(i as int),
        decreases ps.len() - i,
    {
        let ghost before = keys@;
        let key = SortKey { weight: 0, desc: ps[i].date.clone(), desc2: String::new(), asc: ps[i].description.clone(), desc3: String::new(), asc2: String::new() };
        assert(key_view(key) == payment_key(ps@[i as int]));
        keys.push(key);
        assert(key_views(keys@) =~= key_views(before).push(key_view(key)));
        i += 1;
        assert(payment_keys(ps@).take(i as int) =~= payment_keys(ps@).take(i - 1).push(
            payment_key(ps@[i - 1]),
        ));
    }
    assert(key_views(keys@) =~= payment_keys(ps@));
    let idx = sort_order(&keys);
    let mut out: Vec<PaymentEntry> = Vec::new();
    let mut k: usize = 0;
    while k < idx.len()
        invariant
            k <= idx@.len(),
            stable_order(payment_keys(ps@), as_ints(idx@)),
            out@.len() == k,
            forall|q: int| 0 <= q < k ==> out@[q] == ps@[idx@[q] as int],
        decreases idx@.len() - k,
    {
        assert(as_ints(idx@)[k as int] == idx@[k as int] as int);
        out.push(copy_payment(&ps[idx[k]]));
        k += 1;
    }
    proof {
        let ids = as_ints(idx@);
        assert forall|q: int| 0 <= q < out@.len() implies out@[q] == ps@[ids[q]] by {
            assert(ids[q] == idx@[q] as int);
        }
    }
    out
}

/// The payments listed in a `payments.json` document.
pub open spec fn payment_records(doc: JsonValue) -> Seq<JsonValue> {
    match obj_get(doc, "records"@) {
        Some(JsonValue::Array(items, _)) => items@,
        _ => Seq::empty(),
    }
}

/// The billing insights of the payments document (`None` when it could not
/// be read) and the entitlement and coin-transaction counts.
pub fn billing_from(payments: Option<&JsonValue>, entitlements: u64, coins: u64) -> (b:
    BillingInsights)
    ensures
        b.entitlements_count == entitlements,
        b.coin_transactions == coins,
        b.by_gateway.wf(),
        ({
            let recs = match payments {
                Some(d) => payment_records(*d),
                None => Seq::empty(),
            };
            exists|ps: Seq<PaymentEntry>|
                {
                    &&& #[trigger] ps.len() == recs.len()
                    &&& forall|i: int| 0 <= i < recs.len() ==> payment_spec(recs[i], #[trigger] ps[i])
                    &&& b.payments_total == ps.len()
                    &&& currency_table(ps, b.totals_by_currency@)
                    &&& b.by_gateway.counts() == gateway_counts(ps)
                    &&& reordered(ps, payment_keys(ps), b.timeline@)
                }
        }),
{
    let mut entries: Vec<PaymentEntry> = Vec::new();
    let ghost recs = match payments {
        Some(d) => payment_records(*d),
        None => Seq::<JsonValue>::empty(),
    };
    match payments {
        Some(d) => match get(d, "records") {
            Some(JsonValue::Array(items, _)) => {
                let mut i: usize = 0;
                while i < items.len()
                    invariant
                        i <= items@.len(),
                        recs == items@,
                        entries@.len() == i,
                        forall|q: int| 0 <= q < i ==> payment_spec(items@[q], #[trigger] entries@[q]),
                    decreases items@.len() - i,
                {
                    entries.push(payment_entry(&items[i]));
                    i += 1;
                }
            },
            _ => {},
        },
        None => {},
    }
    let mut totals: Vec<(String, i64)> = Vec::new();
    let mut gateways = U32Counts::new();
    let mut i: usize = 0;
    while i < entries.len()
        invariant
            i <= entries@.len(),
            currency_table(entries@.take(i as int), totals@),
            gateways.wf(),
            gateways.counts() == gateway_counts(entries@.take(i as int)),
        decreases entries@.len() - i,
    {
        assert(entries@.take(i + 1) =~= entries@.take(i as int).push(entries@[i as int]));
        add_to_table(&mut totals, Ghost(entries@.take(i as int)), &entries[i]);
        gateways.add_sat(entries[i].gateway, 1);
        i += 1;
        assert(entries@.take(i as int).drop_last() =~= entries@.take(i - 1));
    }
    assert(entries@.take(entries@.len() as int) =~= entries@);
    let timeline = sort_payments(&entries);
    BillingInsights {
        payments_total: entries.len() as u64,
        totals_by_currency: totals,
        by_gateway: gateways,
        timeline,
        entitlements_count: entitlements,
        coin_transactions: coins,
    }
}

// ---------------------------------------------------------------------------
// DM and group-DM social summary
// ---------------------------------------------------------------------------

/// One DM contact or group DM with its activity.
pub struct ContactStat {
    pub name: String,
    pub messages: u64,
    pub first_date: Option<String>,
    pub last_date: Option<String>,
}

/// DM and group-DM totals; contacts and groups busiest first.
pub struct SocialInsights {
    pub dm_channels: u64,
    pub group_dm_channels: u64,
    pub dm_messages: u64,
    pub group_dm_messages: u64,
    pub top_contacts: Vec<ContactStat>,
    pub top_groups: Vec<ContactStat>,
}

/// Contacts are ordered by messages (most first), then by name.
pub open spec fn contact_key(c: ContactStat) -> KeyView {
    (c.messages, Seq::empty(), Seq::empty(), c.name@, Seq::<char>::empty(), Seq::<char>::empty())
}

pub open spec fn contact_keys(cs: Seq<ContactStat>) -> Seq<KeyView> {
    cs.map_values(|c: ContactStat| contact_key(c))
}

fn copy_opt(o: &Option<String>) -> (r: Option<String>)
    ensures
        r == *o,
{
    match o {
        Some(s) => Some(s.clone()),
        None => None,
    }
}

fn copy_contact(c: &ContactStat) -> (r: ContactStat)
    ensures
        r == *c,
{
    ContactStat {
        name: c.name.clone(),
        messages: c.messages,
        first_date: copy_opt(&c.first_date),
        last_date: copy_opt(&c.last_date),
    }
}

/// Each contact has at least as many messages as every contact after it,
/// and among equal counts the names come in alphabetical order.
pub open spec fn busiest_first(cs: Seq<ContactStat>) -> bool {
    forall|i: int, j: int|
        0 <= i < j < cs.len() ==> (#[trigger] cs[i]).messages >= (#[trigger] cs[j]).messages && (
        cs[i].messages == cs[j].messages ==> !seq_less(cs[j].name@, cs[i].name@))
}

/// Contacts put in contact order come busiest first, ties by name: the
/// message counts never grow down the list, and equal counts are listed
/// by name in alphabetical order.
pub proof fn lemma_contacts_busiest_first(ps: Seq<ContactStat>, out: Seq<ContactStat>)
    requires
        reordered(ps, contact_keys(ps), out),
    ensures
        busiest_first(out),
        out.len() == ps.len(),
{
    let idx = choose|idx: Seq<int>|
        #[trigger] stable_order(contact_keys(ps), idx) && out.len() == ps.len() && forall|k: int|
            0 <= k < out.len() ==> out[k] == ps[idx[k]];
    let keys = contact_keys(ps);
    assert forall|i: int, j: int| 0 <= i < j < out.len() implies (#[trigger] out[i]).messages
        >= (#[trigger] out[j]).messages && (out[i].messages == out[j].messages ==> !seq_less(
        out[j].name@,
        out[i].name@,
    )) by {
        assert(!key_before(keys[idx[j]], keys[idx[i]]));
        assert(keys[idx[i]] == contact_key(out[i]));
        assert(keys[idx[j]] == contact_key(out[j]));
    }
}

/// Orders contacts busiest first, ties by name, then as listed.
pub fn sort_contacts(v: &mut Vec<ContactStat>)
    ensures
        reordered(old(v)@, contact_keys(old(v)@), final(v)@),
        busiest_first(final(v)@),
{
    let mut keys: Vec<SortKey> = Vec::new();
    let mut i: usize = 0;
    while i < v.len()
        invariant
            i <= v@.len(),
            key_views(keys@) == contact_keys(v@).take(i as int),
        decreases v@.len() - i,
    {
        let ghost before = keys@;
        let key = SortKey { weight: v[i].messages, desc: String::new(), desc2: String::new(), asc: v[i].name.clone(), desc3: String::new(), asc2: String::new() };
        assert(key_view(key) == contact_key(v@[i as int]));
        keys.push(key);
        assert(key_views(keys@) =~= key_views(before).push(key_view(key)));
        i += 1;
        assert(contact_keys(v@).take(i as int) =~= contact_keys(v@).take(i - 1).push(
            contact_key(v@[i - 1]),
        ));
    }
    assert(key_views(keys@) =~= contact_keys(v@));
    let idx = sort_order(&keys);
    let mut out: Vec<ContactStat> = Vec::new();
    let mut k: usize = 0;
    while k < idx.len()
        invariant
            k <= idx@.len(),
            stable_order(contact_keys(v@), as_ints(idx@)),
            out@.len() == k,
            forall|q: int| 0 <= q < k ==> out@[q] == v@[idx@[q] as int],
        decreases idx@.len() - k,
    {
        assert(as_ints(idx@)[k as int] == idx@[k as int] as int);
        out.push(copy_contact(&v[idx[k]]));
        k += 1;
    }
    proof {
        let ids = as_ints(idx@);
        assert forall|q: int| 0 <= q < out@.len() implies out@[q] == v@[ids[q]] by {
            assert(ids[q] == idx@[q] as int);
        }
    }
    proof {
        lemma_contacts_busiest_first(old(v)@, out@);
    }
    *v = out;
}

/// The channel's type, ASCII upper-cased, is `kind`.
pub open spec fn of_kind(c: &ChannelAnalysisCache, kind: Seq<char>) -> bool {
    upper_seq(c.channel_type@) == kind
}

/// The summary of a channel as a contact.
pub open spec fn is_contact_of(s: ContactStat, c: &ChannelAnalysisCache) -> bool {
    &&& s.name == c.channel_title
    &&& s.messages == c.message_count
    &&& s.first_date == c.temporal.first_message_date
    &&& s.last_date == c.temporal.last_message_date
}

/// The channels of `cs` of the given kind, in order.
pub open spec fn channels_of_kind(cs: Seq<&ChannelAnalysisCache>, kind: Seq<char>) -> Seq<&ChannelAnalysisCache>
    decreases cs.len(),
{
    if cs.len() == 0 {
        Seq::empty()
    } else {
        let rest = channels_of_kind(cs.drop_last(), kind);
        if of_kind(cs.last(), kind) {
            rest.push(cs.last())
        } else {
            rest
        }
    }
}

/// Saturating sum of the message counts.
pub open spec fn message_sum(cs: Seq<&ChannelAnalysisCache>) -> u64
    decreases cs.len(),
{
    if cs.len() == 0 {
        0
    } else {
        sat_u64(message_sum(cs.drop_last()) + cs.last().message_count)
    }
}

/// `out` holds the contact summaries of `chans`, busiest first.
pub open spec fn ranked_contacts(chans: Seq<&ChannelAnalysisCache>, out: Seq<ContactStat>) -> bool {
    exists|listed: Seq<ContactStat>|
        {
            &&& #[trigger] listed.len() == chans.len()
            &&& forall|i: int| 0 <= i < chans.len() ==> is_contact_of(#[trigger] listed[i], chans[i])
            &&& reordered(listed, contact_keys(listed), out)
        }
}

fn contact_of(c: &ChannelAnalysisCache) -> (s: ContactStat)
    ensures
        is_contact_of(s, c),
{
    ContactStat {
        name: c.channel_title.clone(),
        messages: c.message_count,
        first_date: copy_opt(&c.temporal.first_message_date),
        last_date: copy_opt(&c.temporal.last_message_date),
    }
}

/// The DM / group-DM summary of the channels found in the messages folder,
/// in folder order.
pub fn compute_social(channels: &Vec<&ChannelAnalysisCache>) -> (s: SocialInsights)
    ensures
        s.dm_channels == channels_of_kind(channels@, "DM"@).len(),
        s.group_dm_channels == channels_of_kind(channels@, "GROUP_DM"@).len(),
        s.dm_messages == message_sum(channels_of_kind(channels@, "DM"@)),
        s.group_dm_messages == message_sum(channels_of_kind(channels@, "GROUP_DM"@)),
        ranked_contacts(channels_of_kind(channels@, "DM"@), s.top_contacts@),
        ranked_contacts(channels_of_kind(channels@, "GROUP_DM"@), s.top_groups@),
        busiest_first(s.top_contacts@),
        busiest_first(s.top_groups@),
{
    let mut dms: Vec<ContactStat> = Vec::new();
    let mut groups: Vec<ContactStat> = Vec::new();
    let mut dm_messages: u64 = 0;
    let mut group_messages: u64 = 0;
    let ghost cs = channels@;
    let mut i: usize = 0;
    assert(cs.take(0) =~= Seq::<&ChannelAnalysisCache>::empty());
    while i < channels.len()
        invariant
            i <= cs.len(),
            cs == channels@,
            dms@.len() == channels_of_kind(cs.take(i as int), "DM"@).len(),
            forall|q: int| 0 <= q < dms@.len() ==> is_contact_of(#[trigger] dms@[q], channels_of_kind(cs.take(i as int), "DM"@)[q]),
            groups@.len() == channels_of_kind(cs.take(i as int), "GROUP_DM"@).len(),
            forall|q: int| 0 <= q < groups@.len() ==> is_contact_of(#[trigger] groups@[q], channels_of_kind(cs.take(i as int), "GROUP_DM"@)[q]),
            dm_messages == message_sum(channels_of_kind(cs.take(i as int), "DM"@)),
            group_messages == message_sum(channels_of_kind(cs.take(i as int), "GROUP_DM"@)),
        decreases cs.len() - i,
    {
        let c = channels[i];
        let ghost t = cs.take(i as int);
        assert(cs.take(i + 1).drop_last() =~= t);
        assert(cs.take(i + 1).last() == c);
        let kind = to_ascii_uppercase(c.channel_type.as_str());
        proof {
            reveal_strlit("DM");
            reveal_strlit("GROUP_DM");
            assert(of_kind(c, "DM"@) == (kind@ == "DM"@));
            assert(of_kind(c, "GROUP_DM"@) == (kind@ == "GROUP_DM"@));
            assert("DM"@.len() == 2);
            assert("GROUP_DM"@.len() == 8);
            assert("DM"@ != "GROUP_DM"@);
            assert(channels_of_kind(t, "DM"@).push(c).drop_last() =~= channels_of_kind(t, "DM"@));
            assert(channels_of_kind(t, "GROUP_DM"@).push(c).drop_last() =~= channels_of_kind(
                t,
                "GROUP_DM"@,
            ));
            assert(channels_of_kind(cs.take(i + 1), "DM"@) == if of_kind(c, "DM"@) {
                channels_of_kind(t, "DM"@).push(c)
            } else {
                channels_of_kind(t, "DM"@)
            });
            assert(channels_of_kind(cs.take(i + 1), "GROUP_DM"@) == if of_kind(c, "GROUP_DM"@) {
                channels_of_kind(t, "GROUP_DM"@).push(c)
            } else {
                channels_of_kind(t, "GROUP_DM"@)
            });
        }
        if str_eq(kind.as_str(), "DM") {
            dms.push(contact_of(c));
            dm_messages = crate::counts::sat_add(dm_messages, c.message_count);
        } else if str_eq(kind.as_str(), "GROUP_DM") {
            groups.push(contact_of(c));
            group_messages = crate::counts::sat_add(group_messages, c.message_count);
        }
        i += 1;
    }
    assert(cs.take(cs.len() as int) =~= cs);
    let ghost dm_listed = dms@;
    let ghost group_listed = groups@;
    let dm_count = dms.len() as u64;
    let group_count = groups.len() as u64;
    sort_contacts(&mut dms);
    sort_contacts(&mut groups);
    assert(dm_listed.len() == channels_of_kind(cs, "DM"@).len());
    assert(group_listed.len() == channels_of_kind(cs, "GROUP_DM"@).len());
    SocialInsights {
        dm_channels: dm_count,
        group_dm_channels: group_count,
        dm_messages,
        group_dm_messages: group_messages,
        top_contacts: dms,
        top_groups: groups,
    }
}

// ---------------------------------------------------------------------------
// Servers ranked by engagement
// ---------------------------------------------------------------------------

/// A server ranked by telemetry engagement.
pub struct ServerEngagement {
    pub name: String,
    /// Events observed in this server.
    pub events: u64,
    pub audit_log_entries: u64,
}

/// The id -> name table of `Servers/index.json`: an object whose members
/// are all strings; any other document gives no table.
pub open spec fn name_table(index: Option<JsonValue>) -> Option<Seq<(String, JsonValue)>> {
    match index {
        Some(JsonValue::Object(ms, _)) => if all_strings(ms@) {
            Some(ms@)
        } else {
            None
        },
        _ => None,
    }
}

/// Every member's value is a string.
pub open spec fn all_strings(ms: Seq<(String, JsonValue)>) -> bool {
    forall|i: int| 0 <= i < ms.len() ==> (#[trigger] ms[i]).1 is Str
}

/// The last six characters of `id` (all of it when shorter).
pub open spec fn last_six(id: Seq<char>) -> Seq<char> {
    if id.len() <= 6 {
        id
    } else {
        id.skip(id.len() - 6)
    }
}

/// The server's name from the table, else an abbreviation of its id.
pub open spec fn server_name(index: Option<JsonValue>, id: Seq<char>) -> Seq<char> {
    let fallback = "server\u{2026}"@ + last_six(id);
    match name_table(index) {
        Some(ms) => match members_get(ms, id) {
            Some(JsonValue::Str(s)) => s@,
            _ => fallback,
        },
        None => fallback,
    }
}

/// Entries of a server's `audit-log.json`: the length of its array.
pub open spec fn audit_count_spec(doc: Option<JsonValue>) -> u64 {
    match doc {
        Some(JsonValue::Array(items, _)) => items@.len() as u64,
        _ => 0,
    }
}

pub fn audit_entry_count(doc: Option<&JsonValue>) -> (r: u64)
    ensures
        r == audit_count_spec(opt_ref(doc)),
{
    match doc {
        Some(JsonValue::Array(items, _)) => items.len() as u64,
        _ => 0,
    }
}

pub open spec fn doc_at(docs: Seq<Option<JsonValue>>, i: int) -> Option<JsonValue> {
    if 0 <= i < docs.len() {
        docs[i]
    } else {
        None
    }
}

/// Servers are ordered by events (most first), then by id.
pub open spec fn server_keys(items: Seq<Item>) -> Seq<KeyView> {
    items.map_values(|it: Item| (it.1, Seq::<char>::empty(), Seq::<char>::empty(), it.0, Seq::<char>::empty(), Seq::<char>::empty()))
}

pub open spec fn server_row(
    row: ServerEngagement,
    it: Item,
    index: Option<JsonValue>,
    audit: Option<JsonValue>,
) -> bool {
    &&& row.name@ == server_name(index, it.0)
    &&& row.events == it.1
    &&& row.audit_log_entries == audit_count_spec(audit)
}

fn index_is_table(index: &JsonValue) -> (r: bool)
    ensures
        r == (name_table(Some(*index)) is Some),
{
    match index {
        JsonValue::Object(ms, _) => {
            let mut i: usize = 0;
            while i < ms.len()
                invariant
                    i <= ms@.len(),
                    name_table(Some(*index)) == if all_strings(ms@) {
                        Some(ms@)
                    } else {
                        None
                    },
                    forall|q: int| 0 <= q < i ==> (#[trigger] ms@[q]).1 is Str,
                decreases ms@.len() - i,
            {
                match &ms[i].1 {
                    JsonValue::Str(_) => {},
                    _ => {
                        assert(!(ms@[i as int].1 is Str));
                        assert(!all_strings(ms@));
                        return false;
                    },
                }
                i += 1;
            }
            true
        },
        _ => false,
    }
}

fn server_name_of(index: Option<&JsonValue>, table: bool, id: &str) -> (r: String)
    requires
        table == (name_table(opt_ref(index)) is Some),
    ensures
        r@ == server_name(opt_ref(index), id@),
{
    if table {
        match index {
            Some(ix) => match get(ix, id) {
                Some(JsonValue::Str(s)) => {
                    return s.clone();
                },
                _ => {},
            },
            None => {},
        }
    }
    let v = crate::text::chars_of(id);
    let from = if v.len() > 6 {
        v.len() - 6
    } else {
        0
    };
    let tail = crate::text::string_from_range(&v, from, v.len());
    assert(tail@ == last_six(id@)) by {
        if v.len() <= 6 {
            assert(v@.subrange(0, v@.len() as int) =~= id@);
        } else {
            assert(v@.subrange(from as int, v@.len() as int) =~= id@.skip(id@.len() - 6));
        }
    }
    crate::text::concat("server\u{2026}", tail.as_str())
}

/// The ten servers with the most events (ties by id), named from
/// `Servers/index.json`, with the audit-log entries of each server's
/// `audit-log.json` (`audits[i]` for the `i`-th counted server; missing
/// documents count zero).
pub fn rank_servers(guild_events: &CountMap, index: Option<&JsonValue>, audits: &Vec<Option<JsonValue>>) -> (r:
    Vec<ServerEngagement>)
    ensures
        ({
            let items = guild_events.items();
            exists|rows: Seq<ServerEngagement>, idx: Seq<int>|
                {
                    &&& #[trigger] stable_order(server_keys(items), idx)
                    &&& #[trigger] rows.len() == items.len()
                    &&& forall|i: int|
                        0 <= i < items.len() ==> server_row(#[trigger] rows[i], items[i], opt_ref(index), doc_at(audits@, i))
                    &&& r@.len() == if items.len() < 10 { items.len() } else { 10 }
                    &&& forall|k: int| 0 <= k < r@.len() ==> r@[k] == rows[idx[k]]
                }
        }),
{
    let ghost items = guild_events.items();
    let table = match index {
        Some(ix) => index_is_table(ix),
        None => false,
    };
    let mut rows: Vec<ServerEngagement> = Vec::new();
    let mut keys: Vec<SortKey> = Vec::new();
    let mut i: usize = 0;
    while i < guild_events.len()
        invariant
            i <= items.len(),
            items == guild_events.items(),
            table == (name_table(opt_ref(index)) is Some),
            rows@.len() == i,
            forall|q: int|
                0 <= q < i ==> server_row(#[trigger] rows@[q], items[q], opt_ref(index), doc_at(audits@, q)),
            key_views(keys@) == server_keys(items).take(i as int),
        decreases items.len() - i,
    {
        let (id, events) = guild_events.entry(i);
        let audit = if i < audits.len() {
            match &audits[i] {
                Some(d) => audit_entry_count(Some(d)),
                None => 0,
            }
        } else {
            0
        };
        let name = server_name_of(index, table, id.as_str());
        rows.push(ServerEngagement { name, events, audit_log_entries: audit });
        let ghost before = keys@;
        let key = SortKey { weight: events, desc: String::new(), desc2: String::new(), asc: id.clone(), desc3: String::new(), asc2: String::new() };
        keys.push(key);
        assert(key_views(keys@) =~= key_views(before).push(key_view(key)));
        i += 1;
        assert(server_keys(items).take(i as int) =~= server_keys(items).take(i - 1).push(
            (items[i - 1].1, Seq::<char>::empty(), Seq::<char>::empty(), items[i - 1].0, Seq::<char>::empty(), Seq::<char>::empty()),
        ));
    }
    assert(key_views(keys@) =~= server_keys(items));
    let idx = sort_order(&keys);
    let n: usize = if idx.len() < 10 {
        idx.len()
    } else {
        10
    };
    let mut out: Vec<ServerEngagement> = Vec::new();
    let mut k: usize = 0;
    while k < n
        invariant
            k <= n <= idx@.len(),
            idx@.len() == rows@.len(),
            stable_order(server_keys(items), as_ints(idx@)),
            out@.len() == k,
            forall|q: int| 0 <= q < k ==> out@[q] == rows@[idx@[q] as int],
        decreases n - k,
    {
        assert(as_ints(idx@)[k as int] == idx@[k as int] as int);
        let row = &rows[idx[k]];
        out.push(ServerEngagement { name: row.name.clone(), events: row.events, audit_log_entries: row.audit_log_entries });
        k += 1;
    }
    proof {
        let ids = as_ints(idx@);
        assert forall|q: int| 0 <= q < out@.len() implies out@[q] == rows@[ids[q]] by {
            assert(ids[q] == idx@[q] as int);
        }
        assert(rows@.len() == items.len());
    }
    out
}

// ---------------------------------------------------------------------------
// The account folder
// ---------------------------------------------------------------------------

/// The documents of the Account folder that the insights read (`None`
/// for a file that is missing or not valid JSON).
pub struct AccountDocs {
    pub user: Option<JsonValue>,
    pub payment_sources: Option<JsonValue>,
    pub access_requests: Option<JsonValue>,
    pub payments: Option<JsonValue>,
    pub entitlements: Option<JsonValue>,
    pub coin_transactions: Option<JsonValue>,
}

/// Privacy posture and billing timeline of the account folder.
pub fn compute_account(docs: &AccountDocs) -> (r: (PrivacyInsights, BillingInsights))
    ensures
        r.0.payment_sources == record_count_spec(docs.payment_sources),
        r.0.data_access_requests == record_count_spec(docs.access_requests),
        r.0.has_payment_source == (r.0.payment_sources > 0),
        match docs.user {
            Some(u) => {
                &&& r.0.email_verified == user_verified(u)
                &&& r.0.has_phone == user_has_phone(u)
                &&& opt_view(r.0.premium_until) == user_premium_until(u)
                &&& r.0.account_flags@.map_values(|s: String| s@) == user_flags(u)
                &&& r.0.mfa_enabled == exists|i: int|
                    0 <= i < user_flags(u).len() && has_prefix(#[trigger] user_flags(u)[i], "MFA_"@)
            },
            None => !r.0.email_verified && !r.0.has_phone && !r.0.mfa_enabled
                && r.0.premium_until is None && r.0.account_flags@.len() == 0,
        },
        r.1.entitlements_count == record_count_spec(docs.entitlements),
        r.1.coin_transactions == record_count_spec(docs.coin_transactions),
        r.1.by_gateway.wf(),
        ({
            let recs = match docs.payments {
                Some(d) => payment_records(d),
                None => Seq::empty(),
            };
            exists|ps: Seq<PaymentEntry>|
                {
                    &&& #[trigger] ps.len() == recs.len()
                    &&& forall|i: int| 0 <= i < recs.len() ==> payment_spec(recs[i], #[trigger] ps[i])
                    &&& r.1.payments_total == ps.len()
                    &&& currency_table(ps, r.1.totals_by_currency@)
                    &&& r.1.by_gateway.counts() == gateway_counts(ps)
                    &&& reordered(ps, payment_keys(ps), r.1.timeline@)
                }
        }),
{
    let sources = record_count(docs.payment_sources.as_ref());
    let requests = record_count(docs.access_requests.as_ref());
    let privacy = privacy_from(docs.user.as_ref(), sources, requests);
    let entitlements = record_count(docs.entitlements.as_ref());
    let coins = record_count(docs.coin_transactions.as_ref());
    let billing = billing_from(docs.payments.as_ref(), entitlements, coins);
    (privacy, billing)
}

} // verus!
