//! The collaborative project: an `automerge` document whose root map holds one
//! entry per track, under the key `track_<id>`.  Saving, loading and merging
//! go through automerge; which root keys are tracks is decided here.
use vstd::prelude::*;
use vstd::string::{StrSliceExecFns, StringExecFns};
use automerge::transaction::Transactable;
use automerge::{AutoCommit, AutomergeError, ObjId, ReadDoc, ScalarValue};

verus! {

/// automerge's document type, carried opaquely.
#[verifier::external_type_specification]
#[verifier::external_body]
pub struct ExAutoCommit(AutoCommit);

/// The error automerge reports when it cannot load or merge a document.
#[verifier::external_type_specification]
#[verifier::external_body]
pub struct ExAutomergeError(AutomergeError);

/// The id of an object inside a document.
#[verifier::external_type_specification]
#[verifier::external_body]
pub struct ExObjId(ObjId);

/// The keys of a document's root map.
pub uninterp spec fn doc_root_keys(d: AutoCommit) -> Set<Seq<char>>;

/// The boolean stored under `field` in the map that the root map holds under
/// `key`, if there is such a map and such a boolean.
pub uninterp spec fn doc_track_flag(d: AutoCommit, key: Seq<char>, field: Seq<char>) -> Option<bool>;

/// The map object that the root map holds under `key`, if that entry is a map.
pub uninterp spec fn doc_root_map(d: AutoCommit, key: Seq<char>) -> Option<ObjId>;

/// Whether automerge's `AutoCommit::load` accepts these bytes as a document.
pub uninterp spec fn doc_loads(bytes: Seq<u8>) -> bool;

/// The root keys of the document that `AutoCommit::load` makes of these bytes.
pub uninterp spec fn doc_loaded_keys(bytes: Seq<u8>) -> Set<Seq<char>>;

/// The flags (as `doc_track_flag` reads them) of the document that
/// `AutoCommit::load` makes of these bytes.
pub uninterp spec fn doc_loaded_flag(bytes: Seq<u8>, key: Seq<char>, field: Seq<char>) -> Option<bool>;

/// Whether `AutoCommit::merge` of `other` into `d` succeeds.
pub uninterp spec fn doc_merges(d: AutoCommit, other: AutoCommit) -> bool;

/// The root keys of `d` after `AutoCommit::merge` of `other` into it.
pub uninterp spec fn doc_merged_keys(d: AutoCommit, other: AutoCommit) -> Set<Seq<char>>;

/// The flags of `d` after `AutoCommit::merge` of `other` into it.
pub uninterp spec fn doc_merged_flag(
    d: AutoCommit,
    other: AutoCommit,
    key: Seq<char>,
    field: Seq<char>,
) -> Option<bool>;

/// A new, empty document (`AutoCommit::new`): its root map has no keys.
#[verifier::external_body]
fn doc_new() -> (d: AutoCommit)
    ensures
        doc_root_keys(d) == Set::<Seq<char>>::empty(),
        forall|k: Seq<char>, f: Seq<char>| #[trigger] doc_track_flag(d, k, f) is None,
{
    AutoCommit::new()
}

/// Loads a document from bytes (`AutoCommit::load`).  Whether it succeeds,
/// and the keys and flags of the document it makes, depend on the bytes
/// alone; no bytes at all load as an empty document.
#[verifier::external_body]
fn doc_load(bytes: &[u8]) -> (r: Result<AutoCommit, AutomergeError>)
    ensures
        r is Ok <==> doc_loads(bytes@),
        bytes@.len() == 0 ==> r is Ok,
        r matches Ok(d) ==> {
            &&& doc_root_keys(d) == doc_loaded_keys(bytes@)
            &&& forall|k: Seq<char>, f: Seq<char>|
                #[trigger] doc_track_flag(d, k, f) == doc_loaded_flag(bytes@, k, f)
            &&& bytes@.len() == 0 ==> doc_root_keys(d) == Set::<Seq<char>>::empty()
        },
{
    AutoCommit::load(bytes)
}

/// Applies to `doc` the changes of `other` that it lacks
/// (`AutoCommit::merge`).  Whether that succeeds, and the keys and flags of
/// the merged document, depend on the two documents alone; how automerge
/// resolves the two histories is not written out here.
#[verifier::external_body]
fn doc_merge(doc: &mut AutoCommit, other: &mut AutoCommit) -> (r: Result<(), AutomergeError>)
    ensures
        r is Ok <==> doc_merges(*old(doc), *old(other)),
        r is Ok ==> doc_root_keys(*final(doc)) == doc_merged_keys(*old(doc), *old(other)),
        r is Ok ==> forall|k: Seq<char>, f: Seq<char>|
            #[trigger] doc_track_flag(*final(doc), k, f) == doc_merged_flag(*old(doc), *old(other), k, f),
{
    doc.merge(other).map(|_| ())
}

/// Saves the whole document (`AutoCommit::save`).  Saving commits the pending
/// changes, which are already visible, so the keys and flags stay as they
/// were; the bytes load back to a document with the same keys and flags.
#[verifier::external_body]
fn doc_save(doc: &mut AutoCommit) -> (bytes: Vec<u8>)
    ensures
        doc_root_keys(*final(doc)) == doc_root_keys(*old(doc)),
        forall|k: Seq<char>, f: Seq<char>|
            #[trigger] doc_track_flag(*final(doc), k, f) == doc_track_flag(*old(doc), k, f),
        doc_loads(bytes@),
        doc_loaded_keys(bytes@) == doc_root_keys(*old(doc)),
        forall|k: Seq<char>, f: Seq<char>|
            #[trigger] doc_loaded_flag(bytes@, k, f) == doc_track_flag(*old(doc), k, f),
{
    doc.save()
}

/// The map that the root map holds under `key` (`ReadDoc::get` on the
/// root), if that entry is a map.  Reading the root never fails.
#[verifier::external_body]
fn doc_root_map_entry(doc: &AutoCommit, key: &str) -> (r: Result<Option<ObjId>, AutomergeError>)
    ensures
        r is Ok,
        r matches Ok(o) ==> o == doc_root_map(*doc, key@),
        r matches Ok(Some(_)) ==> doc_root_keys(*doc).contains(key@),
{
    match doc.get(automerge::ROOT, key) {
        Ok(Some((automerge::Value::Object(automerge::ObjType::Map), id))) => Ok(Some(id)),
        Ok(_) => Ok(None),
        Err(e) => Err(e),
    }
}

/// Stores a boolean under `field` in map `obj` (`Transactable::put`).  Into
/// a map that the root map holds, this always succeeds: the flag is then
/// `value`, and the root keys, the maps they hold and every other flag stay.
#[verifier::external_body]
fn doc_put_flag(doc: &mut AutoCommit, obj: &ObjId, field: &str, value: bool) -> (r: Result<(), AutomergeError>)
    ensures
        forall|key: Seq<char>| #[trigger] doc_root_map(*old(doc), key) == Some(*obj) ==> {
            &&& r is Ok
            &&& doc_track_flag(*final(doc), key, field@) == Some(value)
            &&& doc_root_keys(*final(doc)) == doc_root_keys(*old(doc))
            &&& forall|k: Seq<char>| #[trigger] doc_root_map(*final(doc), k) == doc_root_map(*old(doc), k)
            &&& forall|k: Seq<char>, f: Seq<char>|
                (k != key || f != field@) ==> #[trigger] doc_track_flag(*final(doc), k, f)
                    == doc_track_flag(*old(doc), k, f)
        },
{
    doc.put(obj, field, ScalarValue::Boolean(value))
}

/// The keys of the document's root map (`ReadDoc::keys` on the root), each
/// once.
#[verifier::external_body]
fn doc_key_list(doc: &AutoCommit) -> (keys: Vec<String>)
    ensures
        forall|i: int| 0 <= i < keys@.len() ==> doc_root_keys(*doc).contains(#[trigger] keys@[i]@),
        forall|k: Seq<char>| #[trigger] doc_root_keys(*doc).contains(k) ==> exists|i: int|
            0 <= i < keys@.len() && keys@[i]@ == k,
        forall|i: int, j: int| 0 <= i < j < keys@.len() ==> #[trigger] keys@[i]@ != #[trigger] keys@[j]@,
{
    doc.keys(automerge::ROOT).collect()
}

/// The prefix of the root keys that name tracks.
pub open spec fn track_prefix() -> Seq<char> {
    seq!['t', 'r', 'a', 'c', 'k', '_']
}

/// `key` names a track: it starts with `track_`.
pub open spec fn is_track_key_spec(key: Seq<char>) -> bool {
    key.len() >= track_prefix().len() && key.subrange(0, track_prefix().len() as int)
        == track_prefix()
}

/// Whether `key` names a track: it starts with `track_`.
pub fn is_track_key(key: &str) -> (b: bool)
    ensures
        b == is_track_key_spec(key@),
{
    let prefix = "track_";
    proof {
        reveal_strlit("track_");
        assert(prefix@ =~= track_prefix());
    }
    if key.unicode_len() < 6 {
        return false;
    }
    let mut i: usize = 0;
    while i < 6
        invariant
            i <= 6,
            key@.len() >= 6,
            prefix@ == track_prefix(),
            forall|j: int| 0 <= j < i ==> key@[j] == prefix@[j],
        decreases 6 - i,
    {
        if key.get_char(i) != prefix.get_char(i) {
            assert(key@.subrange(0, 6)[i as int] != track_prefix()[i as int]);
            return false;
        }
        i += 1;
    }
    assert(key@.subrange(0, 6) =~= track_prefix());
    true
}

/// A field of a track entry as read from the document: an unsigned or signed
/// integer, a string, a boolean, a level (a number of the caller's type `V`),
/// or anything else (including a missing field).
#[derive(Debug, Clone)]
pub enum FieldValue<V> {
    Uint(u64),
    Int(i64),
    Str(String),
    Boolean(bool),
    Level(V),
    Other,
}

/// A track as the project reports it; `V` is the type of its levels.
#[derive(Debug, Clone)]
pub struct TrackRecord<V> {
    pub id: u64,
    pub name: String,
    pub volume: V,
    pub pan: V,
    pub muted: bool,
    pub solo: bool,
}

/// The id a field gives: an unsigned integer as it is, a signed one
/// reinterpreted as unsigned, anything else 0.
pub open spec fn decoded_id<V>(f: FieldValue<V>) -> u64 {
    match f {
        FieldValue::Uint(v) => v,
        FieldValue::Int(v) => v as u64,
        _ => 0,
    }
}

/// The name a field gives: a string as it is, anything else the empty name.
pub open spec fn decoded_name<V>(f: FieldValue<V>) -> Seq<char> {
    match f {
        FieldValue::Str(s) => s@,
        _ => Seq::empty(),
    }
}

/// The level a field gives: a level as it is, anything else `default`.
pub open spec fn decoded_level<V>(f: FieldValue<V>, default: V) -> V {
    match f {
        FieldValue::Level(v) => v,
        _ => default,
    }
}

/// The flag a field gives: a boolean as it is, anything else `false`.
pub open spec fn decoded_flag<V>(f: FieldValue<V>) -> bool {
    match f {
        FieldValue::Boolean(b) => b,
        _ => false,
    }
}

/// A track from the fields of its entry.  A field of the wrong kind, or a
/// missing one, gives the default: id 0, an empty name, `unity_volume`,
/// `centre_pan`, not muted, not solo.
pub fn decode_track<V>(
    id: FieldValue<V>,
    name: FieldValue<V>,
    volume: FieldValue<V>,
    pan: FieldValue<V>,
    muted: FieldValue<V>,
    solo: FieldValue<V>,
    unity_volume: V,
    centre_pan: V,
) -> (t: TrackRecord<V>)
    ensures
        t.id == decoded_id(id),
        t.name@ == decoded_name(name),
        t.volume == decoded_level(volume, unity_volume),
        t.pan == decoded_level(pan, centre_pan),
        t.muted == decoded_flag(muted),
        t.solo == decoded_flag(solo),
{
    let id = match id {
        FieldValue::Uint(v) => v,
        FieldValue::Int(v) => v as u64,
        _ => 0,
    };
    let name = match name {
        FieldValue::Str(s) => s,
        _ => String::new(),
    };
    let volume = match volume {
        FieldValue::Level(v) => v,
        _ => unity_volume,
    };
    let pan = match pan {
        FieldValue::Level(v) => v,
        _ => centre_pan,
    };
    let muted = match muted {
        FieldValue::Boolean(b) => b,
        _ => false,
    };
    let solo = match solo {
        FieldValue::Boolean(b) => b,
        _ => false,
    };
    TrackRecord { id, name, volume, pan, muted, solo }
}

/// The character of decimal digit `d`.
pub open spec fn digit_char(d: nat) -> char {
    if d == 0 { '0' }
    else if d == 1 { '1' }
    else if d == 2 { '2' }
    else if d == 3 { '3' }
    else if d == 4 { '4' }
    else if d == 5 { '5' }
    else if d == 6 { '6' }
    else if d == 7 { '7' }
    else if d == 8 { '8' }
    else { '9' }
}

/// `n` written in decimal, without leading zeros.
pub open spec fn decimal(n: nat) -> Seq<char>
    decreases n,
{
    if n < 10 {
        seq![digit_char(n)]
    } else {
        decimal(n / 10).push(digit_char(n % 10))
    }
}

/// The root key of the track with this id.
pub open spec fn track_key_spec(id: u64) -> Seq<char> {
    track_prefix() + decimal(id as nat)
}

/// The one-character string of decimal digit `d`.
fn digit_str(d: u64) -> (s: &'static str)
    requires
        d < 10,
    ensures
        s@ == seq![digit_char(d as nat)],
{
    proof {
        reveal_strlit("0");
        reveal_strlit("1");
        reveal_strlit("2");
        reveal_strlit("3");
        reveal_strlit("4");
        reveal_strlit("5");
        reveal_strlit("6");
        reveal_strlit("7");
        reveal_strlit("8");
        reveal_strlit("9");
    }
    if d == 0 {
        "0"
    } else if d == 1 {
        "1"
    } else if d == 2 {
        "2"
    } else if d == 3 {
        "3"
    } else if d == 4 {
        "4"
    } else if d == 5 {
        "5"
    } else if d == 6 {
        "6"
    } else if d == 7 {
        "7"
    } else if d == 8 {
        "8"
    } else {
        "9"
    }
}

/// Appends `n` in decimal to `s`.
fn append_decimal(s: &mut String, n: u64)
    ensures
        final(s)@ == old(s)@ + decimal(n as nat),
    decreases n,
{
    if n >= 10 {
        append_decimal(s, n / 10);
    }
    s.append(digit_str(n % 10));
    proof {
        if n >= 10 {
            assert(old(s)@ + decimal(n as nat) =~= old(s)@ + decimal((n / 10) as nat) + seq![
                digit_char((n % 10) as nat),
            ]);
        } else {
            assert(decimal(n as nat) == seq![digit_char(n as nat)]);
        }
    }
}

/// The root key of the track with this id: `track_` and the id in decimal.
pub fn track_key(id: u64) -> (k: String)
    ensures
        k@ == track_key_spec(id),
{
    proof {
        reveal_strlit("track_");
    }
    let mut k = String::from_str("track_");
    assert(k@ =~= track_prefix());
    append_decimal(&mut k, id);
    k
}

/// A number's decimal form has a single digit exactly when it is below 10.
proof fn lemma_decimal_len(n: nat)
    ensures
        decimal(n).len() >= 1,
        decimal(n).len() == 1 <==> n < 10,
    decreases n,
{
    if n >= 10 {
        lemma_decimal_len(n / 10);
    }
}

/// Different numbers have different decimal forms.
pub proof fn lemma_decimal_injective(a: nat, b: nat)
    requires
        decimal(a) == decimal(b),
    ensures
        a == b,
    decreases a,
{
    lemma_decimal_len(a);
    lemma_decimal_len(b);
    if a >= 10 && b >= 10 {
        assert(decimal(a).drop_last() =~= decimal(a / 10));
        assert(decimal(b).drop_last() =~= decimal(b / 10));
        lemma_decimal_injective(a / 10, b / 10);
        assert(decimal(a).last() == digit_char(a % 10));
        assert(decimal(b).last() == digit_char(b % 10));
    } else if a < 10 && b < 10 {
        assert(decimal(a)[0] == digit_char(a));
        assert(decimal(b)[0] == digit_char(b));
    }
}

/// Every track key is found by the track filter, and different tracks get
/// different keys.
pub proof fn lemma_track_keys(id: u64, other: u64)
    ensures
        is_track_key_spec(track_key_spec(id)),
        id != other ==> track_key_spec(id) != track_key_spec(other),
{
    let k = track_key_spec(id);
    assert(k.subrange(0, 6) =~= track_prefix());
    if id != other && track_key_spec(id) == track_key_spec(other) {
        assert(track_key_spec(id).skip(6) =~= decimal(id as nat));
        assert(track_key_spec(other).skip(6) =~= decimal(other as nat));
        lemma_decimal_injective(id as nat, other as nat);
    }
}

/// The name of a track's mute flag.
pub open spec fn muted_field() -> Seq<char> {
    seq!['m', 'u', 't', 'e', 'd']
}

/// `other` is a document that `other_bytes` load to, and merging it into
/// `before` gives `after`, succeeding as `ok` says.
pub open spec fn merge_outcome(
    before: AutoCommit,
    other: AutoCommit,
    other_bytes: Seq<u8>,
    after: AutoCommit,
    ok: bool,
) -> bool {
    &&& doc_root_keys(other) == doc_loaded_keys(other_bytes)
    &&& forall|k: Seq<char>, f: Seq<char>|
        #[trigger] doc_track_flag(other, k, f) == doc_loaded_flag(other_bytes, k, f)
    &&& ok == doc_merges(before, other)
    &&& ok ==> doc_root_keys(after) == doc_merged_keys(before, other)
    &&& ok ==> forall|k: Seq<char>, f: Seq<char>|
        #[trigger] doc_track_flag(after, k, f) == doc_merged_flag(before, other, k, f)
}

/// A project shared between collaborators: one automerge document.
pub struct CollaborativeProject {
    pub doc: AutoCommit,
}

impl CollaborativeProject {
    /// The keys of the project document's root map.
    pub open spec fn root_keys(&self) -> Set<Seq<char>> {
        doc_root_keys(self.doc)
    }

    /// The boolean stored under `field` in the map held under root `key`.
    pub open spec fn flag(&self, key: Seq<char>, field: Seq<char>) -> Option<bool> {
        doc_track_flag(self.doc, key, field)
    }

    /// `bytes` load back to a project with these keys and flags.
    pub open spec fn saved_as(&self, bytes: Seq<u8>) -> bool {
        &&& doc_loads(bytes)
        &&& doc_loaded_keys(bytes) == self.root_keys()
        &&& forall|k: Seq<char>, f: Seq<char>| #[trigger] doc_loaded_flag(bytes, k, f) == self.flag(k, f)
    }

    /// This project holds the keys and flags that `bytes` load to.
    pub open spec fn loaded_from(&self, bytes: Seq<u8>) -> bool {
        &&& self.root_keys() == doc_loaded_keys(bytes)
        &&& forall|k: Seq<char>, f: Seq<char>| #[trigger] self.flag(k, f) == doc_loaded_flag(bytes, k, f)
    }

    /// The root keys that name tracks.
    pub open spec fn track_key_set(&self) -> Set<Seq<char>> {
        self.root_keys().filter(|k: Seq<char>| is_track_key_spec(k))
    }

    /// A project with an empty document.
    pub fn new() -> (p: CollaborativeProject)
        ensures
            p.root_keys() == Set::<Seq<char>>::empty(),
            forall|k: Seq<char>, f: Seq<char>| #[trigger] p.flag(k, f) is None,
    {
        CollaborativeProject { doc: doc_new() }
    }

    /// The whole document as bytes: they load back to the project as it is.
    /// What the project holds is unchanged.
    pub fn save(&mut self) -> (bytes: Vec<u8>)
        ensures
            final(self).root_keys() == old(self).root_keys(),
            forall|k: Seq<char>, f: Seq<char>| #[trigger] final(self).flag(k, f) == old(self).flag(k, f),
            final(self).saved_as(bytes@),
    {
        doc_save(&mut self.doc)
    }

    /// A project from saved bytes: it loads exactly when automerge accepts the
    /// bytes, and then holds what the bytes hold; no bytes at all give an
    /// empty project.
    pub fn load(bytes: &[u8]) -> (r: Result<CollaborativeProject, AutomergeError>)
        ensures
            r is Ok <==> doc_loads(bytes@),
            r matches Ok(p) ==> p.loaded_from(bytes@),
            r matches Ok(p) ==> (bytes@.len() == 0 ==> p.root_keys() == Set::<Seq<char>>::empty()),
    {
        match doc_load(bytes) {
            Ok(doc) => Ok(CollaborativeProject { doc }),
            Err(e) => Err(e),
        }
    }

    /// Merges in a document saved elsewhere.  Bytes that do not load are
    /// refused with the project left as it was.  Otherwise the document they
    /// load to is merged in: the merge succeeds exactly when automerge's
    /// does, and the project then holds automerge's merge of the two.
    pub fn merge(&mut self, other_bytes: &[u8]) -> (r: Result<(), AutomergeError>)
        ensures
            !doc_loads(other_bytes@) ==> r is Err && *final(self) == *old(self),
            r is Ok ==> doc_loads(other_bytes@),
            doc_loads(other_bytes@) ==> exists|other: AutoCommit|
                #[trigger] merge_outcome(old(self).doc, other, other_bytes@, final(self).doc, r is Ok),
    {
        match doc_load(other_bytes) {
            Ok(mut other) => {
                let ghost loaded = other;
                let r = doc_merge(&mut self.doc, &mut other);
                assert(merge_outcome(old(self).doc, loaded, other_bytes@, self.doc, r is Ok));
                r
            },
            Err(e) => Err(e),
        }
    }

    /// Sets whether the track with this id is muted.  When the project holds
    /// a map for that track, this succeeds: its `muted` flag is then `muted`,
    /// and the keys and every other flag stay.  A project with no such map is
    /// left as it is.
    pub fn mute_track(&mut self, id: u64, muted: bool) -> (r: Result<(), AutomergeError>)
        ensures
            doc_root_map(old(self).doc, track_key_spec(id)) is Some ==> {
                &&& r is Ok
                &&& final(self).flag(track_key_spec(id), muted_field()) == Some(muted)
                &&& final(self).root_keys() == old(self).root_keys()
                &&& forall|k: Seq<char>, f: Seq<char>|
                    (k != track_key_spec(id) || f != muted_field()) ==> #[trigger] final(self).flag(k, f)
                        == old(self).flag(k, f)
            },
            doc_root_map(old(self).doc, track_key_spec(id)) is None ==> r is Ok && *final(self)
                == *old(self),
            !old(self).root_keys().contains(track_key_spec(id)) ==> r is Ok && *final(self)
                == *old(self),
    {
        let key = track_key(id);
        let field = "muted";
        proof {
            reveal_strlit("muted");
            assert(field@ =~= muted_field());
        }
        match doc_root_map_entry(&self.doc, key.as_str()) {
            Ok(Some(obj)) => {
                let ghost k = key@;
                assert(doc_root_map(self.doc, k) == Some(obj));
                doc_put_flag(&mut self.doc, &obj, field, muted)
            },
            Ok(None) => Ok(()),
            Err(e) => Err(e),
        }
    }

    /// The root keys that name tracks, each once.
    pub fn track_keys(&self) -> (keys: Vec<String>)
        ensures
            forall|i: int| 0 <= i < keys@.len() ==> self.track_key_set().contains(#[trigger] keys@[i]@),
            forall|k: Seq<char>| #[trigger] self.track_key_set().contains(k) ==> exists|i: int|
                0 <= i < keys@.len() && keys@[i]@ == k,
            forall|i: int, j: int| 0 <= i < j < keys@.len() ==> #[trigger] keys@[i]@ != #[trigger] keys@[j]@,
    {
        let all = doc_key_list(&self.doc);
        let mut keys: Vec<String> = Vec::new();
        let ghost mut from: Seq<int> = Seq::empty();
        let mut i: usize = 0;
        while i < all.len()
            invariant
                i <= all.len(),
                forall|a: int| 0 <= a < all@.len() ==> self.root_keys().contains(#[trigger] all@[a]@),
                forall|a: int, b: int| 0 <= a < b < all@.len() ==> #[trigger] all@[a]@ != #[trigger] all@[b]@,
                from.len() == keys@.len(),
                forall|t: int| 0 <= t < keys@.len() ==> 0 <= #[trigger] from[t] < i && keys@[t]@ == all@[from[t]]@,
                forall|t: int, u: int| 0 <= t < u < keys@.len() ==> #[trigger] from[t] < #[trigger] from[u],
                forall|t: int| 0 <= t < keys@.len() ==> is_track_key_spec(#[trigger] keys@[t]@),
                forall|a: int| 0 <= a < i && is_track_key_spec(#[trigger] all@[a]@) ==> exists|t: int|
                    0 <= t < keys@.len() && from[t] == a,
            decreases all.len() - i,
        {
            let ghost from0 = from;
            if is_track_key(all[i].as_str()) {
                proof {
                    from = from.push(i as int);
                }
                keys.push(all[i].clone());
                proof {
                    assert(from[from.len() - 1] == i);
                    assert forall|a: int| 0 <= a < i + 1 && is_track_key_spec(#[trigger] all@[a]@)
                        implies exists|t: int| 0 <= t < keys@.len() && from[t] == a by {
                        if a < i {
                            let t = choose|t: int| 0 <= t < from0.len() && from0[t] == a;
                            assert(from[t] == a);
                        } else {
                            assert(from[from.len() - 1] == a);
                        }
                    }
                }
            }
            i += 1;
        }
        proof {
            assert forall|t: int| 0 <= t < keys@.len() implies self.track_key_set().contains(
                #[trigger] keys@[t]@,
            ) by {
                assert(self.root_keys().contains(all@[from[t]]@));
            }
            assert forall|t: int, u: int| 0 <= t < u < keys@.len() implies #[trigger] keys@[t]@
                != #[trigger] keys@[u]@ by {
                assert(from[t] < from[u]);
            }
            assert forall|k: Seq<char>| #[trigger] self.track_key_set().contains(k) implies exists|t: int|
                0 <= t < keys@.len() && keys@[t]@ == k by {
                let a = choose|a: int| 0 <= a < all@.len() && all@[a]@ == k;
                assert(is_track_key_spec(all@[a]@));
                let t = choose|t: int| 0 <= t < keys@.len() && from[t] == a;
                assert(keys@[t]@ == k);
            }
        }
        keys
    }
}

/// What `load` reads back is what `save` wrote: bytes that a project was
/// saved as always load, and the project loaded from them has the same keys,
/// the same tracks and the same flags.
pub proof fn lemma_save_load_round_trip(
    saved: CollaborativeProject,
    bytes: Seq<u8>,
    loaded: CollaborativeProject,
)
    requires
        saved.saved_as(bytes),
        loaded.loaded_from(bytes),
    ensures
        doc_loads(bytes),
        loaded.root_keys() == saved.root_keys(),
        loaded.track_key_set() == saved.track_key_set(),
        forall|k: Seq<char>, f: Seq<char>| #[trigger] loaded.flag(k, f) == saved.flag(k, f),
{
    assert forall|k: Seq<char>, f: Seq<char>| #[trigger] loaded.flag(k, f) == saved.flag(k, f) by {
        assert(loaded.flag(k, f) == doc_loaded_flag(bytes, k, f));
        assert(doc_loaded_flag(bytes, k, f) == saved.flag(k, f));
    }
}

impl Default for CollaborativeProject {
    /// A project with an empty document.
    fn default() -> (p: CollaborativeProject)
        ensures
            p.root_keys() == Set::<Seq<char>>::empty(),
            forall|k: Seq<char>, f: Seq<char>| #[trigger] p.flag(k, f) is None,
    {
        CollaborativeProject::new()
    }
}

} // verus!
