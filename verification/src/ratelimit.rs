//! Sliding-window admission of requests, per sender and per address.
use std::collections::VecDeque;
use vstd::prelude::*;
use crate::model::{has_key, get, put, key_pos, unique_keys, lemma_key_pos, lemma_put_unique};
use crate::query::{param, param_value};
use crate::text::{chars_of, string_of, str_eq};

verus! {

/// Requests a sender may send to the message endpoints per window.
pub const MSG_RATE_MAX: usize = 60;
/// The message window, in seconds.
pub const MSG_RATE_WINDOW: u64 = 60;
/// Requests an address may send to the other endpoints per window.
pub const IP_RATE_MAX: usize = 300;
/// The address window, in seconds.
pub const IP_RATE_WINDOW: u64 = 60;

/// An admission stamp older than the window: strictly before `now - window`.
/// Stamps are nanoseconds of a monotonic clock.
pub open spec fn stale(t: u64, now: u64, window_secs: u64) -> bool {
    (t as int) < now as int - window_secs as int * 1_000_000_000
}

/// Drops stale stamps from the front, up to the first stamp that is not stale.
pub open spec fn prune(q: Seq<u64>, now: u64, window_secs: u64) -> Seq<u64>
    decreases q.len(),
{
    if q.len() > 0 && stale(q[0], now, window_secs) {
        prune(q.drop_first(), now, window_secs)
    } else {
        q
    }
}

/// Whether a bucket has room for one more request: after pruning, fewer than `max` stamps remain.
pub open spec fn has_room(q: Seq<u64>, now: u64, max: usize, window_secs: u64) -> bool {
    prune(q, now, window_secs).len() < max
}

/// The stamps after a check: pruned, and `now` added when allowed.
pub open spec fn after_check(q: Seq<u64>, now: u64, max: usize, window_secs: u64) -> Seq<u64> {
    if has_room(q, now, max, window_secs) {
        prune(q, now, window_secs).push(now)
    } else {
        prune(q, now, window_secs)
    }
}

/// The admission stamps of one sender or address, oldest first.
pub struct Bucket {
    timestamps: VecDeque<u64>,
}

impl View for Bucket {
    type V = Seq<u64>;

    closed spec fn view(&self) -> Seq<u64> {
        self.timestamps@
    }
}

fn is_stale(t: u64, now: u64, window_secs: u64) -> (r: bool)
    ensures
        r == stale(t, now, window_secs),
{
    let w: u128 = window_secs as u128;
    assert(w * 1_000_000_000 <= 0xffff_ffff_ffff_ffff * 1_000_000_000) by (nonlinear_arith)
        requires w <= 0xffff_ffff_ffff_ffff;
    (t as u128) + w * 1_000_000_000 < (now as u128)
}

impl Bucket {
    /// A bucket without stamps.
    pub fn new() -> (r: Self)
        ensures
            r@ == Seq::<u64>::empty(),
    {
        Bucket { timestamps: VecDeque::new() }
    }

    /// Allows a request at `now` when fewer than `max` requests were allowed
    /// within the last `window_secs` seconds (stale stamps are dropped first),
    /// recording the admission.
    pub fn check(&mut self, now: u64, max: usize, window_secs: u64) -> (r: bool)
        ensures
            r == has_room(old(self)@, now, max, window_secs),
            final(self)@ == after_check(old(self)@, now, max, window_secs),
    {
        let ghost q0 = self@;
        loop
            invariant
                prune(self@, now, window_secs) == prune(q0, now, window_secs),
            ensures
                self@ == prune(q0, now, window_secs),
            decreases self@.len(),
        {
            if self.timestamps.len() == 0 {
                break;
            }
            let front = self.timestamps[0];
            if !is_stale(front, now, window_secs) {
                break;
            }
            let ghost q = self@;
            self.timestamps.pop_front();
            assert(self@ =~= q.drop_first());
        }
        if self.timestamps.len() >= max {
            return false;
        }
        self.timestamps.push_back(now);
        true
    }
}

} // verus!

verus! {

pub open spec fn has_colon(s: Seq<char>) -> bool {
    exists|i: int| 0 <= i < s.len() && s[i] == ':'
}

/// The position of the last `:` of `s`.
pub open spec fn last_colon(s: Seq<char>) -> int {
    choose|i: int| 0 <= i < s.len() && s[i] == ':' && forall|j: int| i < j < s.len() ==> s[j] != ':'
}

/// The host of a `host:port` address: the text before its last `:`, or the whole
/// address when it has none.
pub open spec fn host_part(s: Seq<char>) -> Seq<char> {
    if has_colon(s) {
        s.take(last_colon(s))
    } else {
        s
    }
}

/// The host of a `host:port` address.
pub fn host_of(remote: &str) -> (r: String)
    ensures
        r@ == host_part(remote@),
{
    let cs = chars_of(remote);
    let mut i: usize = cs.len();
    while i > 0
        invariant
            i <= cs@.len(),
            cs@ == remote@,
            forall|j: int| i <= j < cs@.len() ==> cs@[j] != ':',
        decreases i,
    {
        if cs[i - 1] == ':' {
            let ghost p = (i - 1) as int;
            assert(has_colon(remote@));
            assert(remote@[p] == ':' && forall|j: int| p < j < remote@.len() ==> remote@[j] != ':');
            proof {
                let l = last_colon(remote@);
                if l < p {
                    assert(remote@[p] != ':');
                }
                if l > p {
                    assert(remote@[l] != ':');
                }
                assert(l == p);
            }
            let mut out: Vec<char> = Vec::new();
            let mut k: usize = 0;
            while k < i - 1
                invariant
                    k <= i - 1,
                    i <= cs@.len(),
                    out@ =~= cs@.take(k as int),
                decreases i - 1 - k,
            {
                out.push(cs[k]);
                assert(cs@.take(k + 1) =~= cs@.take(k as int).push(cs@[k as int]));
                k = k + 1;
            }
            return string_of(&out);
        }
        i = i - 1;
    }
    assert(!has_colon(remote@));
    string_of(&cs)
}

/// Whether a path is one of the message endpoints, limited per sender.
pub open spec fn is_message_path(p: Seq<char>) -> bool {
    p == "/message/send"@ || p == "/message/broadcast"@
}

/// The key a request is counted under: for the message endpoints, its `from`
/// query parameter (or its host when it has none); otherwise its host.
pub open spec fn limiter_key(path: Seq<char>, query: Seq<char>, remote: Seq<char>) -> Seq<char> {
    if is_message_path(path) {
        match param_value(query, "from"@) {
            Some(v) => v,
            None => host_part(remote),
        }
    } else {
        host_part(remote)
    }
}

/// The stamps held under `key`, none when it has no bucket yet.
pub open spec fn bucket_of(table: Seq<(Seq<char>, Seq<u64>)>, key: Seq<char>) -> Seq<u64> {
    match get(table, key) {
        Some(b) => b,
        None => Seq::empty(),
    }
}

/// The state of a limiter: buckets of the message endpoints keyed by sender, and
/// buckets of the other endpoints keyed by host.
pub struct LimiterV {
    pub msg: Seq<(Seq<char>, Seq<u64>)>,
    pub ip: Seq<(Seq<char>, Seq<u64>)>,
}

/// What letting a request through does: the request's bucket is checked and updated.
pub open spec fn allow_spec(s: LimiterV, path: Seq<char>, query: Seq<char>, remote: Seq<char>, now: u64) -> (LimiterV, Option<u64>) {
    let key = limiter_key(path, query, remote);
    if is_message_path(path) {
        let b = bucket_of(s.msg, key);
        (
            LimiterV { msg: put(s.msg, key, after_check(b, now, MSG_RATE_MAX, MSG_RATE_WINDOW)), ..s },
            if has_room(b, now, MSG_RATE_MAX, MSG_RATE_WINDOW) { None } else { Some(MSG_RATE_WINDOW) },
        )
    } else {
        let b = bucket_of(s.ip, key);
        (
            LimiterV { ip: put(s.ip, key, after_check(b, now, IP_RATE_MAX, IP_RATE_WINDOW)), ..s },
            if has_room(b, now, IP_RATE_MAX, IP_RATE_WINDOW) { None } else { Some(IP_RATE_WINDOW) },
        )
    }
}

struct KeyedBucket {
    key: String,
    bucket: Bucket,
}

impl View for KeyedBucket {
    type V = (Seq<char>, Seq<u64>);

    closed spec fn view(&self) -> (Seq<char>, Seq<u64>) {
        (self.key@, self.bucket@)
    }
}

/// The buckets of a server's rate limiter.
pub struct RateLimiter {
    msg_buckets: Vec<KeyedBucket>,
    ip_buckets: Vec<KeyedBucket>,
}

impl View for RateLimiter {
    type V = LimiterV;

    closed spec fn view(&self) -> LimiterV {
        LimiterV {
            msg: self.msg_buckets@.map_values(|b: KeyedBucket| b@),
            ip: self.ip_buckets@.map_values(|b: KeyedBucket| b@),
        }
    }
}

/// Checks the bucket under `key` in `table`, creating it when missing.
fn check_in(table: &mut Vec<KeyedBucket>, key: String, now: u64, max: usize, window_secs: u64) -> (r: bool)
    requires
        unique_keys(old(table)@.map_values(|b: KeyedBucket| b@)),
    ensures
        unique_keys(final(table)@.map_values(|b: KeyedBucket| b@)),
        r == has_room(bucket_of(old(table)@.map_values(|b: KeyedBucket| b@), key@), now, max, window_secs),
        final(table)@.map_values(|b: KeyedBucket| b@) == put(
            old(table)@.map_values(|b: KeyedBucket| b@),
            key@,
            after_check(bucket_of(old(table)@.map_values(|b: KeyedBucket| b@), key@), now, max, window_secs),
        ),
{
    let ghost t0 = table@.map_values(|b: KeyedBucket| b@);
    let ghost kv = key@;
    let mut i: usize = 0;
    while i < table.len()
        invariant
            i <= table@.len(),
            t0 == table@.map_values(|b: KeyedBucket| b@),
            t0 == old(table)@.map_values(|b: KeyedBucket| b@),
            unique_keys(t0),
            kv == key@,
            forall|j: int| 0 <= j < i ==> t0[j].0 != kv,
        decreases table@.len() - i,
    {
        assert(t0[i as int] == table@[i as int]@);
        if table[i].key == key {
            proof { lemma_key_pos(t0, kv, i as int); }
            assert(bucket_of(t0, kv) == t0[i as int].1);
            let mut kb = table.remove(i);
            assert(kb.bucket@ == t0[i as int].1);
            let r = kb.bucket.check(now, max, window_secs);
            table.insert(i, kb);
            assert(table@.map_values(|b: KeyedBucket| b@) =~= t0.update(i as int, (kv, after_check(t0[i as int].1, now, max, window_secs))));
            proof { lemma_put_unique(t0, kv, after_check(t0[i as int].1, now, max, window_secs)); }
            return r;
        }
        i = i + 1;
    }
    assert(!has_key(t0, kv));
    assert(bucket_of(t0, kv) == Seq::<u64>::empty());
    let mut b = Bucket::new();
    let r = b.check(now, max, window_secs);
    let kb = KeyedBucket { key, bucket: b };
    table.push(kb);
    assert(table@.map_values(|b: KeyedBucket| b@) =~= t0.push((kv, after_check(Seq::empty(), now, max, window_secs))));
    proof { lemma_put_unique(t0, kv, after_check(Seq::<u64>::empty(), now, max, window_secs)); }
    r
}

impl RateLimiter {
    /// A limiter with no buckets.
    pub fn new() -> (r: Self)
        ensures
            r@.msg.len() == 0,
            r@.ip.len() == 0,
    {
        let r = RateLimiter { msg_buckets: Vec::new(), ip_buckets: Vec::new() };
        assert(r@.msg =~= Seq::empty());
        assert(r@.ip =~= Seq::empty());
        r
    }

    /// Each key has one bucket, in both tables, at all times.
    #[verifier::type_invariant]
    spec fn wf(&self) -> bool {
        unique_keys(self@.msg) && unique_keys(self@.ip)
    }

    /// Decides whether a request for `path` with query `query` from address
    /// `remote` is allowed at monotonic instant `now` (nanoseconds). `None`
    /// lets it through; `Some(secs)` refuses it and gives the window to wait, in seconds.
    pub fn allow(&mut self, path: &str, query: &str, remote: &str, now: u64) -> (r: Option<u64>)
        ensures
            (final(self)@, r) == allow_spec(old(self)@, path@, query@, remote@, now),
    {
        proof { use_type_invariant(&*self); }
        let ghost s0 = self@;
        let is_msg = str_eq(path, "/message/send") || str_eq(path, "/message/broadcast");
        let ip = host_of(remote);
        if is_msg {
            let from = param(query, "from");
            let key = match from {
                Some(v) => v,
                None => ip,
            };
            let mut table: Vec<KeyedBucket> = Vec::new();
            std::mem::swap(&mut table, &mut self.msg_buckets);
            let ok = check_in(&mut table, key, now, MSG_RATE_MAX, MSG_RATE_WINDOW);
            std::mem::swap(&mut table, &mut self.msg_buckets);
            assert(self@.ip == s0.ip);
            if ok { None } else { Some(MSG_RATE_WINDOW) }
        } else {
            let mut table: Vec<KeyedBucket> = Vec::new();
            std::mem::swap(&mut table, &mut self.ip_buckets);
            let ok = check_in(&mut table, ip, now, IP_RATE_MAX, IP_RATE_WINDOW);
            std::mem::swap(&mut table, &mut self.ip_buckets);
            assert(self@.msg == s0.msg);
            if ok { None } else { Some(IP_RATE_WINDOW) }
        }
    }
}

} // verus!
