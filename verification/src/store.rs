//! The concurrent aggregation store's data and deduplication logic.
//!
//! The store owns one record per distinct device address, in first-seen
//! order, and applies each decoded frame as a single transactional
//! update: channel and network name are inserted without duplicates, the
//! signal strength and last-seen timestamp are overwritten.  Callers that
//! share the store between an ingestion task and query threads wrap it in
//! one lock, which restores the atomicity of [`Store::apply`] for
//! readers.

use vstd::prelude::*;
use crate::clock::now_unix;
use crate::frame::{decode, spec_decode, FrameError, FrameModel, ParsedFrame};
use crate::json::{
    json_array, json_record, lemma_json_array_no_nul, lemma_json_record_no_nul, spec_json_array,
    spec_json_record,
};
use crate::parse::{parse_i32, spec_parse_i32};
use crate::text::{push_char, str_eq};

verus! {

/// One record per distinct device address.
pub struct DeviceRecord {
    /// Canonical hardware address, or the empty sentinel for frames
    /// whose address failed validation.
    pub address: String,
    /// Channels on which the device has been observed, first-seen order,
    /// no duplicates.
    pub channels: Vec<u32>,
    /// Broadcast network names observed for the device, first-seen
    /// order, no duplicates, never the empty string.
    pub ssids: Vec<String>,
    /// Most recent signal-strength reading (0 when the field did not
    /// parse).
    pub rssi: i32,
    /// Timestamp of the most recent frame for this address, Unix seconds.
    pub last_seen: i64,
}

/// Mathematical image of a [`DeviceRecord`].
#[verifier::ext_equal]
pub struct RecordModel {
    /// Canonical hardware address, or the empty sentinel.
    pub address: Seq<char>,
    /// Channels observed, in first-seen order.
    pub channels: Seq<u32>,
    /// Network names observed, in first-seen order.
    pub ssids: Seq<Seq<char>>,
    /// Most recent signal-strength reading.
    pub rssi: i32,
    /// Most recent observation time, Unix seconds.
    pub last_seen: i64,
}

impl View for DeviceRecord {
    type V = RecordModel;

    open spec fn view(&self) -> RecordModel {
        RecordModel {
            address: self.address@,
            channels: self.channels@,
            ssids: self.ssids.deep_view(),
            rssi: self.rssi,
            last_seen: self.last_seen,
        }
    }
}

/// A point-in-time copy of one device record, ready for serialization.
///
/// Missing data is replaced by the documented sentinels: `rssi` 0,
/// `channels` `[0]`, `ssids` `[""]`.
#[derive(Debug)]
pub struct Data {
    /// Device hardware address.
    pub mac: String,
    /// Unix timestamp (UTC) of the most recent observation.
    pub ts: i64,
    /// Most recent signal-strength reading.
    pub rssi: i32,
    /// Channels on which the device was seen.
    pub channels: Vec<u32>,
    /// Network names the device broadcast.
    pub ssids: Vec<String>,
}

/// Mathematical image of a [`Data`] snapshot.
#[verifier::ext_equal]
pub struct DataModel {
    /// Device hardware address.
    pub mac: Seq<char>,
    /// Unix timestamp of the most recent observation.
    pub ts: i64,
    /// Most recent signal-strength reading.
    pub rssi: i32,
    /// Channels on which the device was seen.
    pub channels: Seq<u32>,
    /// Network names the device broadcast.
    pub ssids: Seq<Seq<char>>,
}

impl View for Data {
    type V = DataModel;

    open spec fn view(&self) -> DataModel {
        DataModel {
            mac: self.mac@,
            ts: self.ts,
            rssi: self.rssi,
            channels: self.channels@,
            ssids: self.ssids.deep_view(),
        }
    }
}

/// The deduplicated, queryable summary of every device observed.
pub struct Store {
    records: Vec<DeviceRecord>,
}

impl View for Store {
    type V = Seq<RecordModel>;

    closed spec fn view(&self) -> Seq<RecordModel> {
        self.records@.map_values(|r: DeviceRecord| r@)
    }
}

/// The signal strength a frame contributes: its raw field parsed as a
/// signed integer, with 0 as the documented fallback when it does not
/// parse.
pub open spec fn spec_rssi(s: Seq<char>) -> i32 {
    match spec_parse_i32(s) {
        Some(v) => v,
        None => 0,
    }
}

/// Well-formedness of one record: channel and network-name sets are
/// deduplicated, the empty network name never occurs, and at least one
/// channel has been recorded.
pub open spec fn record_wf(r: RecordModel) -> bool {
    &&& r.channels.no_duplicates()
    &&& r.ssids.no_duplicates()
    &&& !r.ssids.contains(Seq::<char>::empty())
    &&& r.channels.len() >= 1
}

/// Well-formedness of the whole store: addresses are distinct (each
/// device appears exactly once) and every record is well-formed.
pub open spec fn wf_records(s: Seq<RecordModel>) -> bool {
    &&& forall|i: int, j: int|
        #![trigger s[i].address, s[j].address]
        0 <= i < j < s.len() ==> s[i].address != s[j].address
    &&& forall|i: int| 0 <= i < s.len() ==> record_wf(#[trigger] s[i])
}

/// Index of the record holding `addr`, if any.
pub open spec fn spec_find(s: Seq<RecordModel>, addr: Seq<char>) -> Option<int>
    decreases s.len(),
{
    if s.len() == 0 {
        None
    } else if s[0].address == addr {
        Some(0)
    } else {
        match spec_find(s.skip(1), addr) {
            Some(i) => Some(i + 1),
            None => None,
        }
    }
}

/// What `spec_find` finds: a valid index holding `addr`, or a guarantee
/// that no record holds it.
pub proof fn lemma_find_props(s: Seq<RecordModel>, addr: Seq<char>)
    ensures
        match spec_find(s, addr) {
            Some(i) => 0 <= i < s.len() && s[i].address == addr,
            None => forall|j: int| 0 <= j < s.len() ==> s[j].address != addr,
        },
    decreases s.len(),
{
    if s.len() > 0 && s[0].address != addr {
        let t = s.skip(1);
        assert(forall|j: int| 0 <= j < t.len() ==> t[j] == s[j + 1]);
        lemma_find_props(t, addr);
        if spec_find(t, addr) is None {
            assert forall|j: int| 0 <= j < s.len() implies s[j].address != addr by {
                if j > 0 {
                    assert(s[j] == t[j - 1]);
                }
            };
        }
    }
}

proof fn lemma_find_at(s: Seq<RecordModel>, addr: Seq<char>, k: int)
    requires
        0 <= k < s.len(),
        s[k].address == addr,
        forall|j: int| 0 <= j < k ==> s[j].address != addr,
    ensures
        spec_find(s, addr) == Some(k),
    decreases s.len(),
{
    if k > 0 {
        let t = s.skip(1);
        assert(forall|j: int| 0 <= j < t.len() ==> t[j] == s[j + 1]);
        lemma_find_at(t, addr, k - 1);
    }
}

proof fn lemma_find_none(s: Seq<RecordModel>, addr: Seq<char>)
    requires
        forall|j: int| 0 <= j < s.len() ==> s[j].address != addr,
    ensures
        spec_find(s, addr) is None,
    decreases s.len(),
{
    if s.len() > 0 {
        let t = s.skip(1);
        assert(forall|j: int| 0 <= j < t.len() ==> t[j] == s[j + 1]);
        lemma_find_none(t, addr);
    }
}

/// How one frame updates the record already holding its address.
pub open spec fn spec_update_record(r: RecordModel, f: FrameModel, now: i64) -> RecordModel {
    RecordModel {
        address: r.address,
        channels: if r.channels.contains(f.channel) {
            r.channels
        } else {
            r.channels.push(f.channel)
        },
        ssids: if f.ssid.len() == 0 || r.ssids.contains(f.ssid) {
            r.ssids
        } else {
            r.ssids.push(f.ssid)
        },
        rssi: spec_rssi(f.rssi_raw),
        last_seen: now,
    }
}

/// The record a frame creates for a first-seen address.
pub open spec fn spec_new_record(f: FrameModel, now: i64) -> RecordModel {
    RecordModel {
        address: f.address,
        channels: seq![f.channel],
        ssids: if f.ssid.len() == 0 {
            Seq::empty()
        } else {
            seq![f.ssid]
        },
        rssi: spec_rssi(f.rssi_raw),
        last_seen: now,
    }
}

/// What applying one frame does to the store: update in place for a
/// known address, append a fresh record for a new one.
pub open spec fn spec_apply(s: Seq<RecordModel>, f: FrameModel, now: i64) -> Seq<RecordModel> {
    match spec_find(s, f.address) {
        Some(i) => s.update(i, spec_update_record(s[i], f, now)),
        None => s.push(spec_new_record(f, now)),
    }
}

proof fn lemma_push_unique<A>(s: Seq<A>, x: A)
    requires
        s.no_duplicates(),
        !s.contains(x),
    ensures
        s.push(x).no_duplicates(),
{
    let t = s.push(x);
    assert forall|i: int, j: int| 0 <= i < t.len() && 0 <= j < t.len() && i != j implies t[i]
        != t[j] by {
        if i < s.len() && j < s.len() {
        } else if j == s.len() {
            assert(t[j] == x);
            if s[i] == x {
                assert(s.contains(x));
            }
        } else {
            assert(t[i] == x);
            if s[j] == x {
                assert(s.contains(x));
            }
        }
    };
}

/// Applying a frame preserves every store invariant: addresses stay
/// distinct, channel and network-name sets stay deduplicated, and the
/// empty network name still never occurs.  However often a value is
/// observed for an address, its record holds it at most once.
pub proof fn lemma_apply_preserves_wf(s: Seq<RecordModel>, f: FrameModel, now: i64)
    requires
        wf_records(s),
    ensures
        wf_records(spec_apply(s, f, now)),
{
    lemma_find_props(s, f.address);
    match spec_find(s, f.address) {
        Some(i) => {
            let r = s[i];
            let r2 = spec_update_record(r, f, now);
            let t = s.update(i, r2);
            assert(record_wf(r));
            if !r.channels.contains(f.channel) {
                lemma_push_unique(r.channels, f.channel);
            }
            if f.ssid.len() != 0 && !r.ssids.contains(f.ssid) {
                lemma_push_unique(r.ssids, f.ssid);
                if r2.ssids.contains(Seq::<char>::empty()) {
                    let k = choose|k: int|
                        0 <= k < r2.ssids.len() && r2.ssids[k] == Seq::<char>::empty();
                    assert(r.ssids.contains(Seq::<char>::empty()) || f.ssid
                        == Seq::<char>::empty());
                }
            }
            assert(record_wf(r2));
            assert(forall|a: int| 0 <= a < t.len() ==> #[trigger] t[a].address == s[a].address);
        },
        None => {
            let r2 = spec_new_record(f, now);
            let t = s.push(r2);
            assert(r2.channels.no_duplicates());
            if f.ssid.len() != 0 {
                assert(r2.ssids =~= seq![f.ssid]);
                assert(r2.ssids.no_duplicates());
                if r2.ssids.contains(Seq::<char>::empty()) {
                    assert(f.ssid == Seq::<char>::empty());
                }
            }
            assert(record_wf(r2));
            assert(forall|a: int| 0 <= a < s.len() ==> #[trigger] t[a] == s[a]);
            assert(t[s.len() as int].address == f.address);
        },
    }
}

/// A frame for a known address never adds a record, and a frame for a
/// fresh address adds exactly one: however many frames are applied, the
/// store holds one record per distinct address observed.
pub proof fn lemma_apply_len(s: Seq<RecordModel>, f: FrameModel, now: i64)
    ensures
        spec_find(s, f.address) is Some ==> spec_apply(s, f, now).len() == s.len(),
        spec_find(s, f.address) is None ==> spec_apply(s, f, now).len() == s.len() + 1,
{
    lemma_find_props(s, f.address);
}

/// What applying a whole sequence of observations, in order, does to a
/// store.  An observation is a decoded frame together with the
/// wall-clock stamp it carried.
pub open spec fn spec_apply_all(
    s: Seq<RecordModel>,
    obs: Seq<(FrameModel, i64)>,
) -> Seq<RecordModel>
    decreases obs.len(),
{
    if obs.len() == 0 {
        s
    } else {
        spec_apply(spec_apply_all(s, obs.drop_last()), obs.last().0, obs.last().1)
    }
}

/// The addresses of a sequence of observations, in order.
pub open spec fn observed_address_seq(obs: Seq<(FrameModel, i64)>) -> Seq<Seq<char>> {
    obs.map_values(|o: (FrameModel, i64)| o.0.address)
}

/// The distinct addresses among a sequence of observations.
pub open spec fn observed_addresses(obs: Seq<(FrameModel, i64)>) -> Set<Seq<char>> {
    observed_address_seq(obs).to_set()
}

/// The channels observed for `addr`, in order.
pub open spec fn observed_channel_seq(obs: Seq<(FrameModel, i64)>, addr: Seq<char>) -> Seq<u32> {
    obs.filter(|o: (FrameModel, i64)| o.0.address == addr).map_values(
        |o: (FrameModel, i64)| o.0.channel,
    )
}

/// The distinct channels observed for `addr`.
pub open spec fn observed_channels(obs: Seq<(FrameModel, i64)>, addr: Seq<char>) -> Set<u32> {
    observed_channel_seq(obs, addr).to_set()
}

/// The non-empty network names observed for `addr`, in order.
pub open spec fn observed_ssid_seq(
    obs: Seq<(FrameModel, i64)>,
    addr: Seq<char>,
) -> Seq<Seq<char>> {
    obs.filter(|o: (FrameModel, i64)| o.0.address == addr && o.0.ssid.len() > 0).map_values(
        |o: (FrameModel, i64)| o.0.ssid,
    )
}

/// The distinct non-empty network names observed for `addr`.
pub open spec fn observed_ssids(obs: Seq<(FrameModel, i64)>, addr: Seq<char>) -> Set<Seq<char>> {
    observed_ssid_seq(obs, addr).to_set()
}

/// The addresses of the store's records, in insertion order.
pub open spec fn record_addresses(s: Seq<RecordModel>) -> Seq<Seq<char>> {
    s.map_values(|r: RecordModel| r.address)
}

/// The store `t` summarizes the observations `obs`: it is well-formed,
/// holds a record exactly for each distinct address observed, and each
/// record's channel and network-name sets are exactly the channels and
/// the non-empty names observed for its address.
pub open spec fn summarizes(t: Seq<RecordModel>, obs: Seq<(FrameModel, i64)>) -> bool {
    &&& wf_records(t)
    &&& record_addresses(t).to_set() == observed_addresses(obs)
    &&& forall|i: int|
        0 <= i < t.len() ==> (#[trigger] t[i]).channels.to_set() == observed_channels(
            obs,
            t[i].address,
        )
    &&& forall|i: int|
        0 <= i < t.len() ==> (#[trigger] t[i]).ssids.to_set() == observed_ssids(
            obs,
            t[i].address,
        )
}

/// The empty network name never appears in any record of a well-formed
/// store: a frame with an empty SSID field contributes nothing to
/// `ssids`.
pub proof fn lemma_no_empty_ssid(s: Seq<RecordModel>)
    requires
        wf_records(s),
    ensures
        forall|i: int| 0 <= i < s.len() ==> !(#[trigger] s[i].ssids).contains(Seq::<char>::empty()),
{
}

proof fn lemma_to_set_empty<A>()
    ensures
        Seq::<A>::empty().to_set() == Set::<A>::empty(),
{
    broadcast use vstd::set::group_set_axioms;

    assert(Seq::<A>::empty().to_set() =~= Set::<A>::empty());
}

proof fn lemma_to_set_push<A>(s: Seq<A>, x: A)
    ensures
        s.push(x).to_set() == s.to_set().insert(x),
{
    broadcast use vstd::set::group_set_axioms;

    let t = s.push(x);
    assert forall|y: A| t.to_set().contains(y) implies s.to_set().insert(x).contains(y) by {
        let k = choose|k: int| 0 <= k < t.len() && t[k] == y;
        if k < s.len() {
            assert(s[k] == y);
            assert(s.contains(y));
        }
    };
    assert forall|y: A| s.to_set().insert(x).contains(y) implies t.to_set().contains(y) by {
        if y == x {
            assert(t[s.len() as int] == y);
            assert(t.contains(y));
        } else {
            let k = choose|k: int| 0 <= k < s.len() && s[k] == y;
            assert(t[k] == y);
            assert(t.contains(y));
        }
    };
    assert(t.to_set() =~= s.to_set().insert(x));
}

proof fn lemma_observed_address_seq_push(obs: Seq<(FrameModel, i64)>, o: (FrameModel, i64))
    ensures
        observed_address_seq(obs.push(o)) == observed_address_seq(obs).push(o.0.address),
{
    assert(observed_address_seq(obs.push(o)) =~= observed_address_seq(obs).push(o.0.address));
}

proof fn lemma_observed_channel_seq_push(
    obs: Seq<(FrameModel, i64)>,
    o: (FrameModel, i64),
    addr: Seq<char>,
)
    ensures
        o.0.address == addr ==> observed_channel_seq(obs.push(o), addr) == observed_channel_seq(
            obs,
            addr,
        ).push(o.0.channel),
        o.0.address != addr ==> observed_channel_seq(obs.push(o), addr) == observed_channel_seq(
            obs,
            addr,
        ),
{
    broadcast use Seq::lemma_filter_push;

    if o.0.address == addr {
        assert(observed_channel_seq(obs.push(o), addr) =~= observed_channel_seq(obs, addr).push(
            o.0.channel,
        ));
    } else {
        assert(observed_channel_seq(obs.push(o), addr) =~= observed_channel_seq(obs, addr));
    }
}

proof fn lemma_observed_ssid_seq_push(
    obs: Seq<(FrameModel, i64)>,
    o: (FrameModel, i64),
    addr: Seq<char>,
)
    ensures
        o.0.address == addr && o.0.ssid.len() > 0 ==> observed_ssid_seq(obs.push(o), addr)
            == observed_ssid_seq(obs, addr).push(o.0.ssid),
        !(o.0.address == addr && o.0.ssid.len() > 0) ==> observed_ssid_seq(obs.push(o), addr)
            == observed_ssid_seq(obs, addr),
{
    broadcast use Seq::lemma_filter_push;

    if o.0.address == addr && o.0.ssid.len() > 0 {
        assert(observed_ssid_seq(obs.push(o), addr) =~= observed_ssid_seq(obs, addr).push(
            o.0.ssid,
        ));
    } else {
        assert(observed_ssid_seq(obs.push(o), addr) =~= observed_ssid_seq(obs, addr));
    }
}

proof fn lemma_observed_absent(obs: Seq<(FrameModel, i64)>, addr: Seq<char>)
    requires
        forall|k: int| 0 <= k < obs.len() ==> (#[trigger] obs[k]).0.address != addr,
    ensures
        observed_channel_seq(obs, addr) == Seq::<u32>::empty(),
        observed_ssid_seq(obs, addr) == Seq::<Seq<char>>::empty(),
    decreases obs.len(),
{
    reveal(Seq::filter);
    if obs.len() == 0 {
        assert(observed_channel_seq(obs, addr) =~= Seq::<u32>::empty());
        assert(observed_ssid_seq(obs, addr) =~= Seq::<Seq<char>>::empty());
    } else {
        let front = obs.drop_last();
        assert(forall|k: int| 0 <= k < front.len() ==> front[k] == obs[k]);
        lemma_observed_absent(front, addr);
        lemma_observed_channel_seq_push(front, obs.last(), addr);
        lemma_observed_ssid_seq_push(front, obs.last(), addr);
        assert(front.push(obs.last()) =~= obs);
    }
}

proof fn lemma_summarizes_step(
    t: Seq<RecordModel>,
    obs: Seq<(FrameModel, i64)>,
    f: FrameModel,
    now: i64,
)
    requires
        summarizes(t, obs),
    ensures
        summarizes(spec_apply(t, f, now), obs.push((f, now))),
{
    broadcast use vstd::set::group_set_axioms;

    let o = (f, now);
    let obs2 = obs.push(o);
    let t2 = spec_apply(t, f, now);
    lemma_apply_preserves_wf(t, f, now);
    lemma_find_props(t, f.address);
    lemma_observed_address_seq_push(obs, o);
    lemma_to_set_push(observed_address_seq(obs), f.address);
    match spec_find(t, f.address) {
        Some(i) => {
            let r = t[i];
            let r2 = spec_update_record(r, f, now);
            let addr = r.address;
            assert(addr == f.address);
            assert(record_addresses(t2) =~= record_addresses(t));
            assert(record_addresses(t)[i] == addr);
            assert(record_addresses(t).contains(addr));
            assert(observed_addresses(obs).insert(f.address) =~= observed_addresses(obs));
            assert(record_addresses(t2).to_set() == observed_addresses(obs2));
            assert forall|j: int| 0 <= j < t2.len() && j != i implies (#[trigger] t2[j]).channels.to_set()
                == observed_channels(obs2, t2[j].address) && t2[j].ssids.to_set()
                == observed_ssids(obs2, t2[j].address) by {
                assert(t2[j] == t[j]);
                assert(t[i].address == f.address);
                assert(t[j].address != f.address);
                lemma_observed_channel_seq_push(obs, o, t[j].address);
                lemma_observed_ssid_seq_push(obs, o, t[j].address);
            };
            lemma_observed_channel_seq_push(obs, o, addr);
            lemma_to_set_push(observed_channel_seq(obs, addr), f.channel);
            if r.channels.contains(f.channel) {
                assert(r.channels.to_set().contains(f.channel));
                assert(observed_channels(obs, addr).insert(f.channel) =~= observed_channels(
                    obs,
                    addr,
                ));
            } else {
                lemma_to_set_push(r.channels, f.channel);
            }
            assert(r2.channels.to_set() == observed_channels(obs2, addr));
            lemma_observed_ssid_seq_push(obs, o, addr);
            if f.ssid.len() == 0 {
                assert(r2.ssids.to_set() == observed_ssids(obs2, addr));
            } else {
                lemma_to_set_push(observed_ssid_seq(obs, addr), f.ssid);
                if r.ssids.contains(f.ssid) {
                    assert(r.ssids.to_set().contains(f.ssid));
                    assert(observed_ssids(obs, addr).insert(f.ssid) =~= observed_ssids(
                        obs,
                        addr,
                    ));
                } else {
                    lemma_to_set_push(r.ssids, f.ssid);
                }
                assert(r2.ssids.to_set() == observed_ssids(obs2, addr));
            }
            assert(t2[i] == r2);
            assert(summarizes(t2, obs2));
        },
        None => {
            let r2 = spec_new_record(f, now);
            assert(record_addresses(t2) =~= record_addresses(t).push(f.address));
            lemma_to_set_push(record_addresses(t), f.address);
            assert(record_addresses(t2).to_set() == observed_addresses(obs2));
            assert(!record_addresses(t).to_set().contains(f.address)) by {
                if record_addresses(t).contains(f.address) {
                    let k = choose|k: int|
                        0 <= k < record_addresses(t).len() && record_addresses(t)[k]
                            == f.address;
                    assert(t[k].address == f.address);
                }
            };
            assert forall|k: int| 0 <= k < obs.len() implies (#[trigger] obs[k]).0.address
                != f.address by {
                if obs[k].0.address == f.address {
                    assert(observed_address_seq(obs)[k] == f.address);
                    assert(observed_address_seq(obs).contains(f.address));
                }
            };
            lemma_observed_absent(obs, f.address);
            assert forall|j: int| 0 <= j < t.len() implies (#[trigger] t2[j]).channels.to_set()
                == observed_channels(obs2, t2[j].address) && t2[j].ssids.to_set()
                == observed_ssids(obs2, t2[j].address) by {
                assert(t2[j] == t[j]);
                assert(t[j].address != f.address);
                lemma_observed_channel_seq_push(obs, o, t[j].address);
                lemma_observed_ssid_seq_push(obs, o, t[j].address);
            };
            let n = t.len() as int;
            assert(t2[n] == r2);
            lemma_observed_channel_seq_push(obs, o, f.address);
            lemma_to_set_push(observed_channel_seq(obs, f.address), f.channel);
            lemma_to_set_push(Seq::<u32>::empty(), f.channel);
            lemma_to_set_empty::<u32>();
            assert(r2.channels =~= Seq::<u32>::empty().push(f.channel));
            assert(r2.channels.to_set() == observed_channels(obs2, f.address));
            lemma_observed_ssid_seq_push(obs, o, f.address);
            lemma_to_set_empty::<Seq<char>>();
            if f.ssid.len() == 0 {
                assert(r2.ssids.to_set() == observed_ssids(obs2, f.address));
            } else {
                lemma_to_set_push(observed_ssid_seq(obs, f.address), f.ssid);
                lemma_to_set_push(Seq::<Seq<char>>::empty(), f.ssid);
                assert(r2.ssids =~= Seq::<Seq<char>>::empty().push(f.ssid));
                assert(r2.ssids.to_set() == observed_ssids(obs2, f.address));
            }
            assert(summarizes(t2, obs2));
        },
    }
}

/// Applying any sequence of observations to an empty store summarizes
/// it exactly: the store holds one record per distinct address observed
/// — so a thousand frames for ten distinct addresses yield exactly ten
/// records — and each record's channel and network-name sets hold,
/// without duplicates, exactly the channels and the non-empty names
/// observed for its address.
pub proof fn lemma_apply_all_summarizes(obs: Seq<(FrameModel, i64)>)
    ensures
        summarizes(spec_apply_all(Seq::empty(), obs), obs),
        spec_apply_all(Seq::empty(), obs).len() == observed_addresses(obs).len(),
    decreases obs.len(),
{
    broadcast use vstd::set::group_set_axioms;

    let t = spec_apply_all(Seq::empty(), obs);
    if obs.len() == 0 {
        assert(record_addresses(t) =~= Seq::<Seq<char>>::empty());
        assert(observed_address_seq(obs) =~= Seq::<Seq<char>>::empty());
        assert(summarizes(t, obs));
    } else {
        let front = obs.drop_last();
        lemma_apply_all_summarizes(front);
        lemma_summarizes_step(
            spec_apply_all(Seq::empty(), front),
            front,
            obs.last().0,
            obs.last().1,
        );
        assert(front.push(obs.last()) =~= obs);
    }
    let ra = record_addresses(t);
    assert(ra.no_duplicates()) by {
        assert forall|i: int, j: int|
            0 <= i < ra.len() && 0 <= j < ra.len() && i != j implies ra[i] != ra[j] by {
            assert(ra[i] == t[i].address);
            assert(ra[j] == t[j].address);
        };
    };
    ra.unique_seq_to_set();
}

fn contains_u32(v: &Vec<u32>, x: u32) -> (r: bool)
    ensures
        r == v@.contains(x),
{
    let n = v.len();
    let mut i: usize = 0;
    while i < n
        invariant
            i <= n,
            n == v@.len(),
            forall|j: int| 0 <= j < i ==> v@[j] != x,
        decreases n - i,
    {
        if v[i] == x {
            return true;
        }
        i = i + 1;
    }
    false
}

fn contains_string(v: &Vec<String>, x: &String) -> (r: bool)
    ensures
        r == v.deep_view().contains(x@),
{
    let n = v.len();
    let mut i: usize = 0;
    while i < n
        invariant
            i <= n,
            n == v@.len(),
            forall|j: int| 0 <= j < i ==> v.deep_view()[j] != x@,
        decreases n - i,
    {
        if v[i].eq(x) {
            assert(v.deep_view()[i as int] == x@);
            return true;
        }
        i = i + 1;
    }
    false
}

fn copy_u32s(v: &Vec<u32>) -> (r: Vec<u32>)
    ensures
        r@ == v@,
{
    let n = v.len();
    let mut r: Vec<u32> = Vec::new();
    let mut i: usize = 0;
    while i < n
        invariant
            i <= n,
            n == v@.len(),
            r@ == v@.take(i as int),
        decreases n - i,
    {
        r.push(v[i]);
        proof {
            assert(v@.take(i + 1 as int) =~= v@.take(i as int).push(v@[i as int]));
        }
        i = i + 1;
    }
    proof {
        assert(v@.take(n as int) =~= v@);
    }
    r
}

fn copy_strings(v: &Vec<String>) -> (r: Vec<String>)
    ensures
        r.deep_view() == v.deep_view(),
{
    let n = v.len();
    let mut r: Vec<String> = Vec::new();
    let mut i: usize = 0;
    while i < n
        invariant
            i <= n,
            n == v@.len(),
            r@.len() == i,
            forall|j: int| 0 <= j < i ==> r.deep_view()[j] == #[trigger] v.deep_view()[j],
        decreases n - i,
    {
        r.push(v[i].clone());
        i = i + 1;
    }
    proof {
        assert(r.deep_view() =~~= v.deep_view());
    }
    r
}

/// The snapshot a record yields: a copy with the documented sentinels
/// for fields without data.
pub open spec fn spec_data_of(r: RecordModel) -> DataModel {
    DataModel {
        mac: r.address,
        ts: r.last_seen,
        rssi: r.rssi,
        channels: if r.channels.len() == 0 {
            seq![0u32]
        } else {
            r.channels
        },
        ssids: if r.ssids.len() == 0 {
            seq![Seq::<char>::empty()]
        } else {
            r.ssids
        },
    }
}

fn make_data(rec: &DeviceRecord) -> (d: Data)
    ensures
        d@ == spec_data_of(rec@),
{
    let channels: Vec<u32> = if rec.channels.len() == 0 {
        vec![0u32]
    } else {
        copy_u32s(&rec.channels)
    };
    let ssids: Vec<String> = if rec.ssids.len() == 0 {
        vec![String::new()]
    } else {
        copy_strings(&rec.ssids)
    };
    let d = Data {
        mac: rec.address.clone(),
        ts: rec.last_seen,
        rssi: rec.rssi,
        channels,
        ssids,
    };
    proof {
        assert(d@.ssids =~~= spec_data_of(rec@).ssids);
        assert(d@.channels =~= spec_data_of(rec@).channels);
        assert(d@ =~~= spec_data_of(rec@));
    }
    d
}

impl Store {
    /// Whether the store invariants hold; established by [`Store::new`]
    /// and preserved by every operation.
    pub open spec fn wf(&self) -> bool {
        wf_records(self@)
    }

    /// An empty store.
    pub fn new() -> (s: Store)
        ensures
            s@ == Seq::<RecordModel>::empty(),
            s.wf(),
    {
        let s = Store { records: Vec::new() };
        proof {
            assert(s@ =~= Seq::<RecordModel>::empty());
        }
        s
    }

    /// Number of distinct device addresses observed.
    pub fn len(&self) -> (n: usize)
        ensures
            n == self@.len(),
    {
        self.records.len()
    }

    fn find_index(&self, address: &str) -> (r: Option<usize>)
        ensures
            match r {
                Some(i) => i < self@.len() && spec_find(self@, address@) == Some(i as int),
                None => spec_find(self@, address@) is None,
            },
    {
        let n = self.records.len();
        let mut i: usize = 0;
        while i < n
            invariant
                i <= n,
                n == self.records@.len(),
                self@ == self.records@.map_values(|r: DeviceRecord| r@),
                forall|j: int| 0 <= j < i ==> self@[j].address != address@,
            decreases n - i,
        {
            if str_eq(self.records[i].address.as_str(), address) {
                proof {
                    assert(self@[i as int].address == address@);
                    lemma_find_at(self@, address@, i as int);
                }
                return Some(i);
            }
            assert(self@[i as int].address != address@);
            i = i + 1;
        }
        proof {
            lemma_find_none(self@, address@);
        }
        None
    }

    /// Applies one decoded frame to the store: record creation, channel
    /// insertion, network-name insertion, signal-strength overwrite and
    /// last-seen overwrite, as one unit.
    pub fn apply(&mut self, channel: u32, address: String, rssi_raw: String, ssid: String, now: i64)
        requires
            old(self).wf(),
        ensures
            final(self).wf(),
            final(self)@ == spec_apply(
                old(self)@,
                FrameModel { channel, address: address@, rssi_raw: rssi_raw@, ssid: ssid@ },
                now,
            ),
    {
        let ghost f = FrameModel { channel, address: address@, rssi_raw: rssi_raw@, ssid: ssid@ };
        let ghost s0 = self@;
        let rssi: i32 = match parse_i32(rssi_raw.as_str()) {
            Some(v) => v,
            None => 0,
        };
        assert(rssi == spec_rssi(f.rssi_raw));
        match self.find_index(address.as_str()) {
            Some(i) => {
                let mut rec = self.records.remove(i);
                let ghost r = s0[i as int];
                assert(rec@ == r);
                if !contains_u32(&rec.channels, channel) {
                    rec.channels.push(channel);
                }
                if !ssid.as_str().is_empty() {
                    if !contains_string(&rec.ssids, &ssid) {
                        rec.ssids.push(ssid);
                    }
                }
                rec.rssi = rssi;
                rec.last_seen = now;
                proof {
                    assert(rec@ =~~= spec_update_record(r, f, now));
                }
                self.records.insert(i, rec);
                proof {
                    assert(self@ =~~= s0.update(i as int, spec_update_record(r, f, now)));
                    lemma_apply_preserves_wf(s0, f, now);
                }
            },
            None => {
                let mut channels: Vec<u32> = Vec::new();
                channels.push(channel);
                let mut ssids: Vec<String> = Vec::new();
                if !ssid.as_str().is_empty() {
                    ssids.push(ssid);
                }
                let rec = DeviceRecord { address, channels, ssids, rssi, last_seen: now };
                proof {
                    assert(rec@ =~~= spec_new_record(f, now));
                }
                self.records.push(rec);
                proof {
                    assert(self@ =~~= s0.push(spec_new_record(f, now)));
                    lemma_apply_preserves_wf(s0, f, now);
                }
            },
        }
    }

    /// Decodes one raw line and applies it; a malformed line is reported
    /// and leaves the store untouched.
    pub fn ingest(&mut self, line: &str, now: i64) -> (r: Result<(), FrameError>)
        requires
            old(self).wf(),
        ensures
            final(self).wf(),
            match spec_decode(line@) {
                Some(f) => r == Ok::<(), FrameError>(()) && final(self)@ == spec_apply(
                    old(self)@,
                    f,
                    now,
                ),
                None => r == Err::<(), FrameError>(FrameError::Malformed) && final(self)@ == old(
                    self,
                )@,
            },
    {
        match decode(line) {
            Ok(p) => {
                let ParsedFrame { channel, address, rssi_raw, ssid } = p;
                self.apply(channel, address, rssi_raw, ssid, now);
                Ok(())
            },
            Err(e) => Err(e),
        }
    }

    /// A snapshot of the record for `address`, or nothing when that
    /// address was never inserted.
    pub fn get_one(&self, address: &str) -> (r: Option<Data>)
        ensures
            match spec_find(self@, address@) {
                Some(i) => r is Some && r->0@ == spec_data_of(self@[i]),
                None => r is None,
            },
    {
        match self.find_index(address) {
            Some(i) => Some(make_data(&self.records[i])),
            None => None,
        }
    }

    /// A snapshot of the most recently inserted address (first-seen
    /// order, not recency of update), or nothing on an empty store.
    pub fn get_last(&self) -> (r: Option<Data>)
        ensures
            self@.len() == 0 ==> r is None,
            self@.len() > 0 ==> r is Some && r->0@ == spec_data_of(self@.last()),
    {
        let n = self.records.len();
        if n == 0 {
            None
        } else {
            Some(make_data(&self.records[n - 1]))
        }
    }

    /// One snapshot per known address, in insertion order.
    pub fn get_all(&self) -> (r: Vec<Data>)
        ensures
            r@.len() == self@.len(),
            forall|i: int| 0 <= i < self@.len() ==> #[trigger] r@[i]@ == spec_data_of(self@[i]),
    {
        let n = self.records.len();
        let mut r: Vec<Data> = Vec::new();
        let mut i: usize = 0;
        while i < n
            invariant
                i <= n,
                n == self.records@.len(),
                self@ == self.records@.map_values(|rec: DeviceRecord| rec@),
                r@.len() == i,
                forall|j: int| 0 <= j < i ==> #[trigger] r@[j]@ == spec_data_of(self@[j]),
            decreases n - i,
        {
            r.push(make_data(&self.records[i]));
            i = i + 1;
        }
        r
    }

    /// Decodes one raw line and applies it, stamped with the current
    /// wall-clock time.  Apart from the timestamp — of which only
    /// non-negativity is known — the effect is exactly that of
    /// [`Store::ingest`].
    pub fn ingest_now(&mut self, line: &str) -> (r: Result<(), FrameError>)
        requires
            old(self).wf(),
        ensures
            final(self).wf(),
            match spec_decode(line@) {
                Some(f) => r == Ok::<(), FrameError>(()) && exists|now: i64|
                    now >= 0 && final(self)@ == spec_apply(old(self)@, f, now),
                None => r == Err::<(), FrameError>(FrameError::Malformed) && final(self)@ == old(
                    self,
                )@,
            },
    {
        let now = now_unix();
        self.ingest(line, now)
    }

    /// The serialized snapshot of the most recently inserted address,
    /// NUL-terminated; the empty sentinel (a bare terminator) when no
    /// data has been observed.  The terminator is the only NUL in the
    /// result.
    pub fn get_data_last(&self) -> (r: String)
        ensures
            self@.len() == 0 ==> r@ == seq!['\u{0}'],
            self@.len() > 0 ==> r@ == spec_json_record(spec_data_of(self@.last())).push('\u{0}'),
            r@.len() >= 1,
            r@.last() == '\u{0}',
            forall|i: int| 0 <= i < r@.len() - 1 ==> r@[i] != '\u{0}',
    {
        match self.get_last() {
            None => {
                let mut s = String::new();
                push_char(&mut s, '\u{0}');
                proof {
                    assert(s@ =~= seq!['\u{0}']);
                }
                s
            },
            Some(d) => {
                let mut s = json_record(&d);
                proof {
                    lemma_json_record_no_nul(d@);
                }
                push_char(&mut s, '\u{0}');
                s
            },
        }
    }

    /// The serialized array of all snapshots, in insertion order,
    /// NUL-terminated.  An empty store yields the empty-array
    /// serialization, never an error.  The terminator is the only NUL in
    /// the result.
    pub fn get_data_all(&self) -> (r: String)
        ensures
            r@ == spec_json_array(self@.map_values(|m: RecordModel| spec_data_of(m))).push(
                '\u{0}',
            ),
            self@.len() == 0 ==> r@ == seq!['[', ']', '\u{0}'],
            r@.len() >= 1,
            r@.last() == '\u{0}',
            forall|i: int| 0 <= i < r@.len() - 1 ==> r@[i] != '\u{0}',
    {
        let all = self.get_all();
        let ghost models = self@.map_values(|m: RecordModel| spec_data_of(m));
        let mut s = json_array(&all);
        proof {
            assert(all@.map_values(|d: Data| d@) =~= models);
            lemma_json_array_no_nul(models);
            if self@.len() == 0 {
                assert(models.map_values(|d: DataModel| spec_json_record(d)) =~= Seq::<
                    Seq<char>,
                >::empty());
                assert(spec_json_array(models) =~= seq!['[', ']']);
            }
        }
        push_char(&mut s, '\u{0}');
        proof {
            if self@.len() == 0 {
                assert(s@ =~= seq!['[', ']', '\u{0}']);
            }
        }
        s
    }
}

} // verus!
