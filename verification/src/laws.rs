//! What holds of every accepted inventory and across the operations.

use crate::ident::is_uuid_text;
use crate::inventory::{drop_device, put_device};
use crate::ipv4::{networks_overlap, network_of, usable_in};
use crate::session::{
    attempt_allowed, before_sign_in, cookie_token, digests, throttle_after, lemma_filter_keeps_distinct, live, put, recent,
    record_of, within_window, without, SessionRecord, MAX_LOGIN_ATTEMPTS, MAX_SESSIONS,
    SESSION_COOKIE_PREFIX, SESSION_LIFETIME_MS,
};
use crate::auth::sha256;
use crate::text::{hex_text, is_white_space, trim_end, trim_start};
use vstd::string::*;
use vstd::utf8::encode_utf8;
use crate::model::{DeviceView, SnapshotView};
use crate::validation::{
    cidr_value, device_error, device_index, first_device_error, first_port_error,
    first_subnet_error, ip_value, is_valid, lemma_first_device_error_none,
    lemma_first_port_error_none, lemma_first_subnet_error_none, parent_chain_error, port_binding,
    port_error, subnet_error, subnet_index, validation_error, MAX_DEVICES, MAX_PORTS, MAX_SUBNETS,
};
use vstd::prelude::*;

verus! {

/// In an accepted inventory every subnet, device and port has passed its rules.
pub proof fn lemma_all_passed(v: SnapshotView)
    requires
        is_valid(v),
    ensures
        forall|i: int| 0 <= i < v.subnets.len() ==> #[trigger] subnet_error(v, i) is None,
        forall|j: int| 0 <= j < v.devices.len() ==> #[trigger] device_error(v, j) is None,
        forall|k: int| 0 <= k < v.ports.len() ==> #[trigger] port_error(v, k) is None,
{
    assert forall|i: int| 0 <= i < v.subnets.len() implies #[trigger] subnet_error(v, i) is None by {
        lemma_first_subnet_error_none(v, v.subnets.len(), i);
    }
    assert forall|j: int| 0 <= j < v.devices.len() implies #[trigger] device_error(v, j) is None by {
        lemma_first_device_error_none(v, v.devices.len(), j);
    }
    assert forall|k: int| 0 <= k < v.ports.len() implies #[trigger] port_error(v, k) is None by {
        lemma_first_port_error_none(v, v.ports.len(), k);
    }
}

/// An accepted inventory has schema version 1 and at most 10,000 devices,
/// 1,000 subnets and 10,000 ports.
pub proof fn law_accepted_within_limits(v: SnapshotView)
    requires
        is_valid(v),
    ensures
        v.schema_version == 1,
        v.devices.len() <= MAX_DEVICES,
        v.subnets.len() <= MAX_SUBNETS,
        v.ports.len() <= MAX_PORTS,
{
}

/// Every record of an accepted inventory has a UUID, and no two records of
/// the same kind share one.
pub proof fn law_ids_unique(v: SnapshotView, a: int, b: int)
    requires
        is_valid(v),
        0 <= a < b,
    ensures
        b < v.subnets.len() ==> is_uuid_text(v.subnets[b].id) && v.subnets[a].id != v.subnets[b].id,
        b < v.devices.len() ==> is_uuid_text(v.devices[b].id) && v.devices[a].id != v.devices[b].id,
        b < v.ports.len() ==> is_uuid_text(v.ports[b].id) && v.ports[a].id != v.ports[b].id,
{
    lemma_all_passed(v);
    if b < v.subnets.len() {
        assert(subnet_error(v, b) is None);
    }
    if b < v.devices.len() {
        assert(device_error(v, b) is None);
    }
    if b < v.ports.len() {
        assert(port_error(v, b) is None);
    }
}

/// Every IPv4 address is assigned to at most one device.
pub proof fn law_no_duplicate_ips(v: SnapshotView, a: int, b: int)
    requires
        is_valid(v),
        0 <= a < b < v.devices.len(),
        v.devices[a].ip.len() > 0,
        v.devices[b].ip.len() > 0,
    ensures
        ip_value(v.devices[a].ip) is Some,
        ip_value(v.devices[a].ip) != ip_value(v.devices[b].ip),
{
    lemma_all_passed(v);
    assert(device_error(v, a) is None);
    assert(device_error(v, b) is None);
}

/// Subnets of an accepted inventory are written with their network address
/// and never overlap.
pub proof fn law_subnets_disjoint(v: SnapshotView, a: int, b: int)
    requires
        is_valid(v),
        0 <= a < b < v.subnets.len(),
    ensures
        cidr_value(v.subnets[a].cidr) is Some,
        cidr_value(v.subnets[b].cidr) is Some,
        (cidr_value(v.subnets[b].cidr)->0).0 == network_of(
            (cidr_value(v.subnets[b].cidr)->0).0,
            (cidr_value(v.subnets[b].cidr)->0).1,
        ),
        !networks_overlap(cidr_value(v.subnets[a].cidr)->0, cidr_value(v.subnets[b].cidr)->0),
{
    lemma_all_passed(v);
    assert(subnet_error(v, a) is None);
    assert(subnet_error(v, b) is None);
}

/// A subnet's gateway, when it has one, is a usable address of the subnet.
pub proof fn law_gateway_usable(v: SnapshotView, i: int)
    requires
        is_valid(v),
        0 <= i < v.subnets.len(),
        v.subnets[i].gateway.len() > 0,
    ensures
        ip_value(v.subnets[i].gateway) is Some,
        usable_in(
            (cidr_value(v.subnets[i].cidr)->0).0,
            (cidr_value(v.subnets[i].cidr)->0).1,
            ip_value(v.subnets[i].gateway)->0,
        ),
{
    lemma_all_passed(v);
    assert(subnet_error(v, i) is None);
}

/// A device assigned to a subnet names an existing subnet, and its address,
/// when it has one, is a usable host address of that subnet.
pub proof fn law_device_in_its_subnet(v: SnapshotView, j: int)
    requires
        is_valid(v),
        0 <= j < v.devices.len(),
        v.devices[j].subnet_id.len() > 0,
    ensures
        subnet_index(v.subnets, v.devices[j].subnet_id) is Some,
        v.devices[j].ip.len() > 0 ==> {
            let net = cidr_value(v.subnets[subnet_index(v.subnets, v.devices[j].subnet_id)->0].cidr)->0;
            usable_in(net.0, net.1, ip_value(v.devices[j].ip)->0)
        },
{
    lemma_all_passed(v);
    assert(device_error(v, j) is None);
}

/// Following "connected to" links from any device of an accepted inventory
/// ends at a device without a parent: every link names an existing device and
/// no device is met twice.
pub proof fn law_no_parent_cycles(v: SnapshotView, j: int)
    requires
        is_valid(v),
        0 <= j < v.devices.len(),
    ensures
        parent_chain_error(v.devices, j) is None,
{
    lemma_all_passed(v);
    assert(device_error(v, j) is None);
}

/// No two ports record the same host (case-insensitively, trimmed), port
/// number and protocol.
pub proof fn law_port_bindings_distinct(v: SnapshotView, a: int, b: int)
    requires
        is_valid(v),
        0 <= a < b < v.ports.len(),
    ensures
        port_binding(v.ports[a]) != port_binding(v.ports[b]),
{
    lemma_all_passed(v);
    assert(port_error(v, b) is None);
}

/// After saving a device, looking up its id finds it.
pub proof fn law_saved_device_found(s: Seq<DeviceView>, d: DeviceView)
    ensures
        device_index(put_device(s, d), d.id) is Some,
        0 <= device_index(put_device(s, d), d.id)->0 < put_device(s, d).len(),
        put_device(s, d)[device_index(put_device(s, d), d.id)->0] == d,
{
    let ids = s.map_values(|d: DeviceView| d.id);
    ids.index_of_first_ensures(d.id);
    let t = put_device(s, d);
    let tids = t.map_values(|d: DeviceView| d.id);
    tids.index_of_first_ensures(d.id);
    match ids.index_of_first(d.id) {
        Some(i) => {
            assert(tids[i] == d.id);
            assert(tids.contains(d.id));
            let k = tids.index_of_first(d.id)->0;
            if k != i {
                assert(k < i);
                assert(tids[k] == ids[k]);
            }
        },
        None => {
            assert(tids[s.len() as int] == d.id);
            assert(tids.contains(d.id));
            let k = tids.index_of_first(d.id)->0;
            if k != s.len() {
                assert(tids[k] == ids[k]);
                assert(ids.contains(d.id));
            }
        },
    }
}

/// Saving the same device twice leaves what saving it once left.
pub proof fn law_save_device_idempotent(s: Seq<DeviceView>, d: DeviceView)
    ensures
        put_device(put_device(s, d), d) == put_device(s, d),
{
    law_saved_device_found(s, d);
    let t = put_device(s, d);
    let k = device_index(t, d.id)->0;
    assert(t.update(k, d) =~= t);
}

/// After deleting a device, no device has its id and none is connected to it.
pub proof fn law_deleted_device_detached(s: Seq<DeviceView>, id: Seq<char>, i: int)
    requires
        id.len() > 0,
        0 <= i < drop_device(s, id).len(),
    ensures
        drop_device(s, id)[i].id != id,
        drop_device(s, id)[i].parent != id,
{
    let pred = |x: DeviceView| x.id != id;
    let f = s.filter(pred);
    broadcast use vstd::seq_lib::group_filter_ensures;
    assert(pred(f[i]));
}

/// With distinct digests, the record kept under a record's digest is that record.
proof fn lemma_record_of_member(s: Seq<SessionRecord>, x: SessionRecord)
    requires
        digests(s).no_duplicates(),
        s.contains(x),
    ensures
        record_of(s, x.digest) == Some(x),
{
    let ds = digests(s);
    let i = choose|i: int| 0 <= i < s.len() && s[i] == x;
    assert(ds[i] == x.digest);
    ds.index_of_first_ensures(x.digest);
    let j = ds.index_of_first(x.digest)->0;
    assert(ds[j] == ds[i]);
}

/// Storing a record keeps digests distinct and leaves at most one more record.
proof fn lemma_put_distinct(s: Seq<SessionRecord>, rec: SessionRecord)
    requires
        digests(s).no_duplicates(),
    ensures
        digests(put(s, rec)).no_duplicates(),
        put(s, rec).contains(rec),
        put(s, rec).len() <= s.len() + 1,
{
    let ds = digests(s);
    ds.index_of_first_ensures(rec.digest);
    match ds.index_of_first(rec.digest) {
        Some(i) => {
            assert(digests(s.update(i, rec)) =~= ds);
            assert(s.update(i, rec)[i] == rec);
        },
        None => {
            assert(digests(s.push(rec)) =~= ds.push(rec.digest));
            assert(s.push(rec)[s.len() as int] == rec);
        },
    }
}

/// A sign-in at `now` keeps at most 32 sessions, and the session it records is
/// found under its digest until it expires.
pub proof fn law_sign_in_then_session_found(s: Seq<SessionRecord>, rec: SessionRecord, now: u64, later: u64)
    requires
        digests(s).no_duplicates(),
        later < rec.expires,
    ensures
        put(before_sign_in(s, now), rec).len() <= MAX_SESSIONS,
        record_of(put(before_sign_in(s, now), rec), rec.digest) == Some(rec),
        record_of(live(put(before_sign_in(s, now), rec), later), rec.digest) == Some(rec),
{
    broadcast use vstd::seq_lib::group_filter_ensures;

    lemma_filter_keeps_distinct(s, |r: SessionRecord| r.expires > now);
    let b = before_sign_in(s, now);
    assert(digests(b).no_duplicates()) by {
        if live(s, now).len() >= MAX_SESSIONS {
            assert(digests(b) =~= Seq::<Seq<char>>::empty());
        }
    }
    lemma_put_distinct(b, rec);
    let t = put(b, rec);
    lemma_record_of_member(t, rec);
    let p = |r: SessionRecord| r.expires > later;
    lemma_filter_keeps_distinct(t, p);
    let i = choose|i: int| 0 <= i < t.len() && t[i] == rec;
    assert(p(t[i]));
    assert(t.filter(p).contains(t[i]));
    lemma_record_of_member(t.filter(p), rec);
}

/// After a session ends, nothing is kept under its digest.
pub proof fn law_sign_out_forgets(s: Seq<SessionRecord>, d: Seq<char>)
    ensures
        record_of(without(s, d), d) is None,
{
    broadcast use vstd::seq_lib::group_filter_ensures;

    let w = without(s, d);
    let ds = digests(w);
    ds.index_of_first_ensures(d);
    if ds.contains(d) {
        let i = choose|i: int| 0 <= i < ds.len() && ds[i] == d;
        assert(w[i].digest != d);
    }
}

/// A session found after dropping expired ones has not expired.
pub proof fn law_found_session_live(s: Seq<SessionRecord>, d: Seq<char>, now: u64)
    ensures
        record_of(live(s, now), d) matches Some(r) ==> r.expires > now,
{
    broadcast use vstd::seq_lib::group_filter_ensures;

    let l = live(s, now);
    digests(l).index_of_first_ensures(d);
}

/// Lower-case hexadecimal text holds only `0`-`9` and `a`-`f`.
proof fn lemma_hex_chars(b: Seq<u8>)
    ensures
        forall|i: int| 0 <= i < hex_text(b).len() ==> {
            let c = #[trigger] hex_text(b)[i];
            ('0' <= c <= '9') || ('a' <= c <= 'f')
        },
        hex_text(b).len() == 2 * b.len(),
    decreases b.len(),
{
    if b.len() > 0 {
        lemma_hex_chars(b.drop_last());
    }
}

/// The cookie a session token is set in reads back as that token: a browser
/// that sends `homelab_session=<token>` is recognised, for any non-empty token
/// without `;` or white space.
pub proof fn law_cookie_round_trip(t: Seq<char>)
    requires
        t.len() > 0,
        forall|i: int| 0 <= i < t.len() ==> #[trigger] t[i] != ';' && !is_white_space(t[i]),
    ensures
        cookie_token(SESSION_COOKIE_PREFIX@ + t) == Some(t),
{
    reveal_strlit("homelab_session=");
    let s = SESSION_COOKIE_PREFIX@ + t;
    assert(s[0] == 'h');
    assert(!s.contains(';')) by {
        if s.contains(';') {
            let i = choose|i: int| 0 <= i < s.len() && s[i] == ';';
            if i >= 16 {
                assert(s[i] == t[i - 16]);
            }
        }
    }
    s.index_of_first_ensures(';');
    assert(trim_start(s) == s);
    assert(s.last() == t[t.len() - 1]);
    assert(trim_end(s) == s);
    assert(SESSION_COOKIE_PREFIX@.is_prefix_of(s)) by {
        assert(s.subrange(0, 16) =~= SESSION_COOKIE_PREFIX@);
    }
    assert(s.skip(16) =~= t);
}

/// Session tokens, lower-case hexadecimal text, read back from their cookie.
pub proof fn law_hex_cookie_round_trip(b: Seq<u8>)
    requires
        b.len() > 0,
    ensures
        cookie_token(SESSION_COOKIE_PREFIX@ + hex_text(b)) == Some(hex_text(b)),
{
    let t = hex_text(b);
    lemma_hex_chars(b);
    assert forall|i: int| 0 <= i < t.len() implies #[trigger] t[i] != ';' && !is_white_space(t[i]) by {
        let c = t[i];
        assert(('0' <= c <= '9') || ('a' <= c <= 'f'));
    }
    law_cookie_round_trip(t);
}

/// The session a sign-in at `now` records for the token written from bytes
/// `b`: kept under the token's digest, with CSRF token `csrf`, for eight hours.
pub open spec fn issued_session(b: Seq<u8>, csrf: Seq<char>, now: u64) -> SessionRecord {
    SessionRecord {
        digest: hex_text(sha256(encode_utf8(hex_text(b)))),
        csrf,
        expires: (now + SESSION_LIFETIME_MS) as u64,
    }
}

/// The cookie a sign-in sets authenticates later requests until the session
/// expires: its token (hexadecimal text of random bytes) reads back from the
/// `Cookie` header, and the session kept under the token's digest is found,
/// with its CSRF token, at any time before it expires.
pub proof fn law_issued_cookie_authenticates(s: Seq<SessionRecord>, b: Seq<u8>, csrf: Seq<char>, now: u64, later: u64)
    requires
        digests(s).no_duplicates(),
        b.len() > 0,
        now <= u64::MAX - SESSION_LIFETIME_MS,
        later < now + SESSION_LIFETIME_MS,
    ensures
        cookie_token(SESSION_COOKIE_PREFIX@ + hex_text(b)) == Some(hex_text(b)),
        record_of(
            live(put(before_sign_in(s, now), issued_session(b, csrf, now)), later),
            hex_text(sha256(encode_utf8(hex_text(b)))),
        ) == Some(issued_session(b, csrf, now)),
{
    law_hex_cookie_round_trip(b);
    law_sign_in_then_session_found(s, issued_session(b, csrf, now), now, later);
}

/// The times of those of the first `n` attempts that were let through and lie
/// within the minute before `now`.
pub open spec fn allowed_within(times: Seq<u64>, n: nat, now: u64) -> Seq<u64>
    decreases n,
{
    if n == 0 {
        Seq::empty()
    } else {
        let prev = allowed_within(times, (n - 1) as nat, now);
        if attempt_allowed(times, n - 1) && within_window(times[n - 1], now) {
            prev.push(times[n - 1])
        } else {
            prev
        }
    }
}

/// The times never go backwards.
pub open spec fn nondecreasing(times: Seq<u64>) -> bool {
    forall|a: int, b: int| 0 <= a <= b < times.len() ==> times[a] <= times[b]
}

/// A throttle never holds more than five attempts.
proof fn lemma_throttle_bounded(times: Seq<u64>)
    ensures
        throttle_after(times).len() <= MAX_LOGIN_ATTEMPTS,
    decreases times.len(),
{
    if times.len() > 0 {
        lemma_throttle_bounded(times.drop_last());
        let prev = throttle_after(times.drop_last());
        prev.lemma_filter_len(|t: u64| within_window(t, times.last()));
    }
}

/// Looking at the attempts let through from a later time keeps those still
/// within a minute of it.
proof fn lemma_rewindow(times: Seq<u64>, m: nat, a: u64, b: u64)
    requires
        m <= times.len(),
        a <= b,
        forall|j: int| 0 <= j < m ==> #[trigger] times[j] <= a,
    ensures
        recent(allowed_within(times, m, a), b) == allowed_within(times, m, b),
    decreases m,
{
    let pred = |t: u64| within_window(t, b);
    if m == 0 {
        reveal_with_fuel(Seq::filter, 1);
    } else {
        lemma_rewindow(times, (m - 1) as nat, a, b);
        let prev = allowed_within(times, (m - 1) as nat, a);
        let x = times[m - 1];
        assert(x <= a);
        if attempt_allowed(times, m - 1) && within_window(x, a) {
            prev.lemma_filter_push(x, pred);
        } else {
            assert(attempt_allowed(times, m - 1) ==> !within_window(x, b));
        }
    }
}

/// After the first `n` attempts the throttle holds exactly the attempts let
/// through within the minute before the last of them.
proof fn lemma_throttle_holds_recent(times: Seq<u64>, n: nat)
    requires
        nondecreasing(times),
        1 <= n <= times.len(),
    ensures
        throttle_after(times.take(n as int)) == allowed_within(times, n, times[n - 1]),
    decreases n,
{
    let t = times.take(n as int);
    let now = times[n - 1];
    assert(t.drop_last() =~= times.take(n - 1));
    assert(t.last() == now);
    if n == 1 {
        assert(times.take(0) =~= Seq::<u64>::empty());
        lemma_rewindow(times, 0, now, now);
    } else {
        lemma_throttle_holds_recent(times, (n - 1) as nat);
        lemma_rewindow(times, (n - 1) as nat, times[n - 2], now);
    }
}

/// At most five login attempts are let through in any rolling minute: for
/// attempts at times that never go backwards, those of the first `i + 1` that
/// were let through and lie within the minute before attempt `i` number at
/// most five. A `LoginThrottle` made by `new` and asked by `try_attempt` at
/// these times holds `throttle_after` of them after each call and answers
/// `attempt_allowed`, as those functions' contracts state.
pub proof fn law_five_logins_per_minute(times: Seq<u64>, i: int)
    requires
        nondecreasing(times),
        0 <= i < times.len(),
    ensures
        allowed_within(times, (i + 1) as nat, times[i]).len() <= MAX_LOGIN_ATTEMPTS,
{
    lemma_throttle_holds_recent(times, (i + 1) as nat);
    lemma_throttle_bounded(times.take(i + 1));
}

} // verus!
