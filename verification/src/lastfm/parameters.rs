//! The parameters of a request, and the signature over them.
use vstd::prelude::*;
use vstd::utf8::encode_utf8;
use crate::maybe_owned_string::MaybeOwnedString;
use crate::lastfm::auth::{append_bytes, lower_hex, md5_digest, ApiSignature, ClientIdentity, SessionKey, ThirtyTwoCharactersLowercaseHexAsciiString};
use crate::lastfm::scrobble::{HeardTrackInfo, Scrobble};
use crate::num::{decimal, signed_decimal, to_decimal, to_signed_decimal};
use crate::text::bytes_of;

verus! {

/// Whether `a` comes before `b` in byte order.
pub open spec fn lex_lt(a: Seq<u8>, b: Seq<u8>) -> bool
    decreases a.len(),
{
    if a.len() == 0 {
        b.len() > 0
    } else if b.len() == 0 {
        false
    } else if a[0] != b[0] {
        a[0] < b[0]
    } else {
        lex_lt(a.drop_first(), b.drop_first())
    }
}

/// Byte order is a strict total order.
pub proof fn lemma_lex_total(a: Seq<u8>, b: Seq<u8>)
    ensures
        !(lex_lt(a, b) && lex_lt(b, a)),
        a != b ==> lex_lt(a, b) || lex_lt(b, a),
        !lex_lt(a, a),
    decreases a.len(),
{
    if a.len() > 0 && b.len() > 0 && a[0] == b[0] {
        lemma_lex_total(a.drop_first(), b.drop_first());
        if a != b {
            assert(a =~= seq![a[0]] + a.drop_first());
            assert(b =~= seq![b[0]] + b.drop_first());
        }
    }
    if a.len() > 0 {
        lemma_lex_total(a.drop_first(), a.drop_first());
    }
    if a.len() == 0 && b.len() == 0 {
        assert(a =~= b);
    }
}

/// Byte order is transitive.
pub proof fn lemma_lex_trans(a: Seq<u8>, b: Seq<u8>, c: Seq<u8>)
    requires
        lex_lt(a, b),
        lex_lt(b, c),
    ensures
        lex_lt(a, c),
    decreases a.len(),
{
    if a.len() > 0 && b.len() > 0 && c.len() > 0 && a[0] == b[0] && b[0] == c[0] {
        lemma_lex_trans(a.drop_first(), b.drop_first(), c.drop_first());
    }
}

/// Whether the key of entry `m` comes before every other key.
pub open spec fn is_least(es: Seq<(Seq<u8>, Seq<u8>)>, m: int) -> bool {
    0 <= m < es.len() && forall|j: int| 0 <= j < es.len() && j != m ==> lex_lt(es[m].0, #[trigger] es[j].0)
}

/// Whether no two entries share a key.
pub open spec fn keys_distinct(es: Seq<(Seq<u8>, Seq<u8>)>) -> bool {
    forall|i: int, j: int| 0 <= i < es.len() && 0 <= j < es.len() && i != j ==> #[trigger] es[i].0 != #[trigger] es[j].0
}

/// The text that a signature covers: each key followed by its value, keys in byte order.
pub open spec fn signing_text(es: Seq<(Seq<u8>, Seq<u8>)>) -> Seq<u8>
    decreases es.len(),
{
    if es.len() == 0 {
        Seq::empty()
    } else {
        let m = choose|m: int| is_least(es, m);
        if 0 <= m < es.len() {
            es[m].0 + es[m].1 + signing_text(es.remove(m))
        } else {
            Seq::empty()
        }
    }
}

/// Only one entry has the least key.
proof fn lemma_least_unique(es: Seq<(Seq<u8>, Seq<u8>)>, a: int, b: int)
    requires
        is_least(es, a),
        is_least(es, b),
    ensures
        a == b,
{
    if a != b {
        lemma_lex_total(es[a].0, es[b].0);
        assert(lex_lt(es[a].0, es[b].0));
        assert(lex_lt(es[b].0, es[a].0));
    }
}

/// The parameters that a sequence of entries sets, a later entry replacing an earlier one of
/// the same key.
pub open spec fn entries_map(es: Seq<(Seq<u8>, Seq<u8>)>) -> Map<Seq<u8>, Seq<u8>>
    decreases es.len(),
{
    if es.len() == 0 {
        Map::empty()
    } else {
        entries_map(es.drop_last()).insert(es.last().0, es.last().1)
    }
}

proof fn lemma_distinct_drop_last(es: Seq<(Seq<u8>, Seq<u8>)>)
    requires
        keys_distinct(es),
        es.len() > 0,
    ensures
        keys_distinct(es.drop_last()),
{
    let p = es.drop_last();
    assert forall|i: int, j: int| 0 <= i < p.len() && 0 <= j < p.len() && i != j implies #[trigger] p[i].0 != #[trigger] p[j].0 by {
        assert(p[i] == es[i]);
        assert(p[j] == es[j]);
    }
}

/// What the map of distinct entries holds: each entry, and nothing else.
proof fn lemma_entries_map_facts(es: Seq<(Seq<u8>, Seq<u8>)>)
    requires
        keys_distinct(es),
    ensures
        entries_map(es).dom().finite(),
        entries_map(es).dom().len() == es.len(),
        forall|i: int| 0 <= i < es.len() ==> #[trigger] entries_map(es).contains_key(es[i].0) && entries_map(es)[es[i].0] == es[i].1,
        forall|k: Seq<u8>| #[trigger] entries_map(es).contains_key(k) ==> exists|i: int| 0 <= i < es.len() && es[i].0 == k,
    decreases es.len(),
{
    if es.len() > 0 {
        let p = es.drop_last();
        let last = es.last();
        lemma_distinct_drop_last(es);
        lemma_entries_map_facts(p);
        if entries_map(p).contains_key(last.0) {
            let i = choose|i: int| 0 <= i < p.len() && p[i].0 == last.0;
            assert(es[i].0 == es[es.len() - 1].0);
        }
        assert(entries_map(es).dom() =~= entries_map(p).dom().insert(last.0));
        assert forall|i: int| 0 <= i < es.len() implies #[trigger] entries_map(es).contains_key(es[i].0) && entries_map(es)[es[i].0] == es[i].1 by {
            if i < es.len() - 1 {
                assert(p[i] == es[i]);
                assert(es[i].0 != es[es.len() - 1].0);
            }
        }
        assert forall|k: Seq<u8>| #[trigger] entries_map(es).contains_key(k) implies exists|i: int| 0 <= i < es.len() && es[i].0 == k by {
            if k != last.0 {
                assert(entries_map(p).contains_key(k));
                let i = choose|i: int| 0 <= i < p.len() && p[i].0 == k;
                assert(es[i].0 == k);
            } else {
                assert(es[es.len() - 1].0 == k);
            }
        }
    }
}

/// Replacing the value of an entry replaces it in the map.
proof fn lemma_entries_map_update(es: Seq<(Seq<u8>, Seq<u8>)>, i: int, v: Seq<u8>)
    requires
        keys_distinct(es),
        0 <= i < es.len(),
    ensures
        keys_distinct(es.update(i, (es[i].0, v))),
        entries_map(es.update(i, (es[i].0, v))) == entries_map(es).insert(es[i].0, v),
    decreases es.len(),
{
    let u = es.update(i, (es[i].0, v));
    assert forall|a: int, b: int| 0 <= a < u.len() && 0 <= b < u.len() && a != b implies #[trigger] u[a].0 != #[trigger] u[b].0 by {
        assert(u[a].0 == es[a].0);
        assert(u[b].0 == es[b].0);
    }
    let p = es.drop_last();
    lemma_distinct_drop_last(es);
    if i == es.len() - 1 {
        assert(u.drop_last() =~= p);
        assert(entries_map(u) =~= entries_map(es).insert(es[i].0, v));
    } else {
        assert(u.drop_last() =~= p.update(i, (p[i].0, v)));
        lemma_entries_map_update(p, i, v);
        assert(es[i].0 != es[es.len() - 1].0);
        assert(entries_map(u) =~= entries_map(es).insert(es[i].0, v));
    }
}

/// Taking out an entry takes its key out of the map.
proof fn lemma_entries_map_remove(es: Seq<(Seq<u8>, Seq<u8>)>, i: int)
    requires
        keys_distinct(es),
        0 <= i < es.len(),
    ensures
        keys_distinct(es.remove(i)),
        entries_map(es.remove(i)) == entries_map(es).remove(es[i].0),
    decreases es.len(),
{
    let r = es.remove(i);
    assert forall|a: int, b: int| 0 <= a < r.len() && 0 <= b < r.len() && a != b implies #[trigger] r[a].0 != #[trigger] r[b].0 by {
        let a0 = if a < i { a } else { a + 1 };
        let b0 = if b < i { b } else { b + 1 };
        assert(r[a] == es[a0]);
        assert(r[b] == es[b0]);
    }
    let p = es.drop_last();
    lemma_distinct_drop_last(es);
    lemma_entries_map_facts(p);
    if i == es.len() - 1 {
        assert(r =~= p);
        if entries_map(p).contains_key(es[i].0) {
            let j = choose|j: int| 0 <= j < p.len() && p[j].0 == es[i].0;
            assert(es[j].0 == es[i].0);
        }
        assert(entries_map(r) =~= entries_map(es).remove(es[i].0));
    } else {
        assert(r.drop_last() =~= p.remove(i));
        assert(r.last() == es.last());
        lemma_entries_map_remove(p, i);
        assert(es[i].0 != es[es.len() - 1].0);
        assert(entries_map(r) =~= entries_map(es).remove(es[i].0));
    }
}

/// A nonempty sequence of distinct keys has a least one.
proof fn lemma_least_exists(es: Seq<(Seq<u8>, Seq<u8>)>)
    requires
        keys_distinct(es),
        es.len() > 0,
    ensures
        exists|m: int| is_least(es, m),
    decreases es.len(),
{
    let n = es.len() - 1;
    if n == 0 {
        assert(is_least(es, 0));
    } else {
        let p = es.drop_last();
        lemma_distinct_drop_last(es);
        lemma_least_exists(p);
        let m = choose|m: int| is_least(p, m);
        assert(es[m].0 != es[n].0);
        lemma_lex_total(es[m].0, es[n].0);
        if lex_lt(es[m].0, es[n].0) {
            assert forall|j: int| 0 <= j < es.len() && j != m implies lex_lt(es[m].0, #[trigger] es[j].0) by {
                if j < n {
                    assert(p[j] == es[j]);
                }
            }
            assert(is_least(es, m));
        } else {
            assert forall|j: int| 0 <= j < es.len() && j != n implies lex_lt(es[n].0, #[trigger] es[j].0) by {
                assert(p[j] == es[j]);
                if j != m {
                    assert(lex_lt(p[m].0, p[j].0));
                    lemma_lex_trans(es[n].0, es[m].0, es[j].0);
                }
            }
            assert(is_least(es, n));
        }
    }
}

/// The signed text depends on the parameters alone, not on the order in which they were
/// added: two sequences of distinct keys that set the same parameters sign the same text.
pub proof fn law_signing_text_order_independent(a: Seq<(Seq<u8>, Seq<u8>)>, b: Seq<(Seq<u8>, Seq<u8>)>)
    requires
        keys_distinct(a),
        keys_distinct(b),
        entries_map(a) == entries_map(b),
    ensures
        signing_text(a) == signing_text(b),
    decreases a.len(),
{
    lemma_entries_map_facts(a);
    lemma_entries_map_facts(b);
    if a.len() > 0 {
        lemma_least_exists(a);
        let ma = choose|m: int| is_least(a, m);
        let k = a[ma].0;
        assert(entries_map(a).contains_key(k));
        assert(entries_map(b).contains_key(k));
        let j = choose|i: int| 0 <= i < b.len() && b[i].0 == k;
        assert(entries_map(b)[b[j].0] == b[j].1);
        assert(b[j] == a[ma]);
        assert forall|q: int| 0 <= q < b.len() && q != j implies lex_lt(b[j].0, #[trigger] b[q].0) by {
            assert(entries_map(b).contains_key(b[q].0));
            assert(entries_map(a).contains_key(b[q].0));
            let p = choose|i: int| 0 <= i < a.len() && a[i].0 == b[q].0;
            assert(b[q].0 != b[j].0);
            assert(p != ma);
            assert(lex_lt(a[ma].0, a[p].0));
        }
        assert(is_least(b, j));
        let mb = choose|m: int| is_least(b, m);
        lemma_least_unique(b, mb, j);
        lemma_entries_map_remove(a, ma);
        lemma_entries_map_remove(b, j);
        law_signing_text_order_independent(a.remove(ma), b.remove(j));
    }
}

/// The text that a signature covers, of a set of parameters: that of any sequence of distinct
/// keys that sets them (all such sequences give the same text).
pub open spec fn parameters_signing_text(m: Map<Seq<u8>, Seq<u8>>) -> Seq<u8> {
    signing_text(choose|es: Seq<(Seq<u8>, Seq<u8>)>| keys_distinct(es) && entries_map(es) == m)
}

proof fn lemma_parameters_signing_text(es: Seq<(Seq<u8>, Seq<u8>)>)
    requires
        keys_distinct(es),
    ensures
        parameters_signing_text(entries_map(es)) == signing_text(es),
{
    let m = entries_map(es);
    let c = choose|c: Seq<(Seq<u8>, Seq<u8>)>| keys_distinct(c) && entries_map(c) == m;
    law_signing_text_order_independent(c, es);
}

/// The parameters that describe a heard track.
pub open spec fn track_parameters<'a>(track: HeardTrackInfo<'a>) -> Map<Seq<u8>, Seq<u8>> {
    let m = Map::<Seq<u8>, Seq<u8>>::empty()
        .insert(encode_utf8("artist"@), encode_utf8(track.artist@))
        .insert(encode_utf8("track"@), encode_utf8(track.track@));
    let m = match track.album {
        Some(album) => m.insert(encode_utf8("album"@), encode_utf8(album@)),
        None => m,
    };
    let m = match track.mbid {
        Some(id) => m.insert(encode_utf8("mbid"@), id@),
        None => m,
    };
    let m = match track.album_artist {
        Some(artist) => m.insert(encode_utf8("albumArtist"@), encode_utf8(artist@)),
        None => m,
    };
    match track.duration_in_seconds {
        Some(d) => m.insert(encode_utf8("duration"@), encode_utf8(decimal(d as nat))),
        None => m,
    }
}

/// Different texts have different UTF-8 encodings.
proof fn lemma_encode_differs(a: Seq<char>, b: Seq<char>)
    requires
        a != b,
    ensures
        encode_utf8(a) != encode_utf8(b),
{
    vstd::utf8::encode_utf8_decode_utf8(a);
    vstd::utf8::encode_utf8_decode_utf8(b);
}

/// The parameters of a heard track hold its artist and track; they hold its album, its
/// album's artist and its duration exactly where it has them.
pub proof fn law_track_parameters<'a>(t: HeardTrackInfo<'a>)
    ensures
        ({
            let m = track_parameters(t);
            &&& m.dom().contains(encode_utf8("artist"@)) && m[encode_utf8("artist"@)] == encode_utf8(t.artist@)
            &&& m.dom().contains(encode_utf8("track"@)) && m[encode_utf8("track"@)] == encode_utf8(t.track@)
            &&& m.dom().contains(encode_utf8("album"@)) <==> t.album is Some
            &&& (t.album matches Some(a) ==> m[encode_utf8("album"@)] == encode_utf8(a@))
            &&& m.dom().contains(encode_utf8("albumArtist"@)) <==> t.album_artist is Some
            &&& (t.album_artist matches Some(a) ==> m[encode_utf8("albumArtist"@)] == encode_utf8(a@))
            &&& m.dom().contains(encode_utf8("duration"@)) <==> t.duration_in_seconds is Some
            &&& (t.duration_in_seconds matches Some(d) ==> m[encode_utf8("duration"@)] == encode_utf8(decimal(d as nat)))
        }),
{
    lemma_batch_names();
    let names = seq!["artist"@, "track"@, "album"@, "mbid"@, "albumArtist"@, "duration"@];
    assert forall|x: int, y: int| 0 <= x < y < names.len() implies encode_utf8(#[trigger] names[x]) != encode_utf8(
        #[trigger] names[y],
    ) by {
        lemma_encode_differs(names[x], names[y]);
    }
    assert(encode_utf8(names[0]) != encode_utf8(names[1]));
    assert(encode_utf8(names[0]) != encode_utf8(names[2]));
    assert(encode_utf8(names[0]) != encode_utf8(names[3]));
    assert(encode_utf8(names[0]) != encode_utf8(names[4]));
    assert(encode_utf8(names[0]) != encode_utf8(names[5]));
    assert(encode_utf8(names[1]) != encode_utf8(names[2]));
    assert(encode_utf8(names[1]) != encode_utf8(names[3]));
    assert(encode_utf8(names[1]) != encode_utf8(names[4]));
    assert(encode_utf8(names[1]) != encode_utf8(names[5]));
    assert(encode_utf8(names[2]) != encode_utf8(names[3]));
    assert(encode_utf8(names[2]) != encode_utf8(names[4]));
    assert(encode_utf8(names[2]) != encode_utf8(names[5]));
    assert(encode_utf8(names[3]) != encode_utf8(names[4]));
    assert(encode_utf8(names[3]) != encode_utf8(names[5]));
    assert(encode_utf8(names[4]) != encode_utf8(names[5]));
}

/// A parameter name followed by an index in brackets, as bytes.
pub open spec fn indexed_key(name: Seq<char>, i: int) -> Seq<u8> {
    encode_utf8(name + seq!['['] + decimal(i as nat) + seq![']'])
}

/// `m` with the parameters of the scrobble at index `i` of a batch.
pub open spec fn with_scrobble<'a>(m: Map<Seq<u8>, Seq<u8>>, s: Scrobble<'a>, i: int) -> Map<Seq<u8>, Seq<u8>> {
    let m = m
        .insert(indexed_key("artist"@, i), encode_utf8(s.info.artist@))
        .insert(indexed_key("track"@, i), encode_utf8(s.info.track@))
        .insert(indexed_key("timestamp"@, i), encode_utf8(signed_decimal(s.timestamp as int)));
    let m = match s.info.album {
        Some(album) => m.insert(indexed_key("album"@, i), encode_utf8(album@)),
        None => m,
    };
    let m = match s.chosen_by_user {
        Some(chosen) => m.insert(indexed_key("chosenByUser"@, i), encode_utf8(if chosen { "1"@ } else { "0"@ })),
        None => m,
    };
    let m = match s.info.mbid {
        Some(id) => m.insert(indexed_key("mbid"@, i), id@),
        None => m,
    };
    let m = match s.info.album_artist {
        Some(artist) => m.insert(indexed_key("albumArtist"@, i), encode_utf8(artist@)),
        None => m,
    };
    match s.info.duration_in_seconds {
        Some(d) => m.insert(indexed_key("duration"@, i), encode_utf8(decimal(d as nat))),
        None => m,
    }
}

/// The parameters of the first `n` scrobbles of a batch.
pub open spec fn scrobbles_parameters<'a>(s: Seq<Scrobble<'a>>, n: int) -> Map<Seq<u8>, Seq<u8>>
    decreases n,
{
    if n <= 0 {
        Map::empty()
    } else {
        with_scrobble(scrobbles_parameters(s, n - 1), s[n - 1], n - 1)
    }
}

/// The names that the parameters of a scrobble in a batch are sent under.
pub open spec fn batch_name(n: Seq<char>) -> bool {
    ||| n == "artist"@
    ||| n == "track"@
    ||| n == "timestamp"@
    ||| n == "album"@
    ||| n == "chosenByUser"@
    ||| n == "mbid"@
    ||| n == "albumArtist"@
    ||| n == "duration"@
}

/// No name of a batch holds a `[`, and the names differ.
proof fn lemma_batch_names()
    ensures
        forall|n: Seq<char>, k: int| batch_name(n) && 0 <= k < n.len() ==> #[trigger] n[k] != '[',
        "artist"@.len() == 6 && "track"@.len() == 5 && "timestamp"@.len() == 9 && "album"@.len() == 5,
        "chosenByUser"@.len() == 12 && "mbid"@.len() == 4 && "albumArtist"@.len() == 11 && "duration"@.len() == 8,
        "track"@ != "album"@,
{
    reveal_strlit("artist");
    reveal_strlit("track");
    reveal_strlit("timestamp");
    reveal_strlit("album");
    reveal_strlit("chosenByUser");
    reveal_strlit("mbid");
    reveal_strlit("albumArtist");
    reveal_strlit("duration");
    assert("track"@[0] != "album"@[0]);
}

/// A name and an index written as `name[index]` give each of them back.
proof fn lemma_indexed_key_injective(n1: Seq<char>, i: int, n2: Seq<char>, j: int)
    requires
        batch_name(n1),
        batch_name(n2),
        0 <= i,
        0 <= j,
        indexed_key(n1, i) == indexed_key(n2, j),
    ensures
        n1 == n2,
        i == j,
{
    lemma_batch_names();
    let x = n1 + seq!['['] + decimal(i as nat) + seq![']'];
    let y = n2 + seq!['['] + decimal(j as nat) + seq![']'];
    vstd::utf8::encode_utf8_decode_utf8(x);
    vstd::utf8::encode_utf8_decode_utf8(y);
    assert(x == y);
    if n1.len() < n2.len() {
        assert(x[n1.len() as int] == '[');
        assert(y[n1.len() as int] == n2[n1.len() as int]);
        assert(n2[n1.len() as int] != '[');
    } else if n2.len() < n1.len() {
        assert(y[n2.len() as int] == '[');
        assert(x[n2.len() as int] == n1[n2.len() as int]);
        assert(n1[n2.len() as int] != '[');
    }
    assert(n1 =~= x.subrange(0, n1.len() as int));
    assert(n2 =~= y.subrange(0, n2.len() as int));
    assert(decimal(i as nat) =~= x.subrange(n1.len() + 1int, x.len() - 1));
    assert(decimal(j as nat) =~= y.subrange(n2.len() + 1int, y.len() - 1));
    crate::num::lemma_decimal_injective(i as nat, j as nat);
}

/// Parameters of a batch under different names or indices have different keys.
proof fn lemma_indexed_keys_distinct()
    ensures
        forall|n1: Seq<char>, i: int, n2: Seq<char>, j: int|
            batch_name(n1) && batch_name(n2) && 0 <= i && 0 <= j && (n1 != n2 || i != j) ==> #[trigger] indexed_key(n1, i)
                != #[trigger] indexed_key(n2, j),
{
    assert forall|n1: Seq<char>, i: int, n2: Seq<char>, j: int|
        batch_name(n1) && batch_name(n2) && 0 <= i && 0 <= j && (n1 != n2 || i != j) implies #[trigger] indexed_key(n1, i)
            != #[trigger] indexed_key(n2, j) by {
        if indexed_key(n1, i) == indexed_key(n2, j) {
            lemma_indexed_key_injective(n1, i, n2, j);
        }
    }
}

/// Parameters of a batch under different indices have different keys.
proof fn lemma_key_differs(n1: Seq<char>, i: int, n2: Seq<char>, j: int)
    requires
        batch_name(n1),
        batch_name(n2),
        0 <= i,
        0 <= j,
        i != j,
    ensures
        indexed_key(n1, i) != indexed_key(n2, j),
{
    if indexed_key(n1, i) == indexed_key(n2, j) {
        lemma_indexed_key_injective(n1, i, n2, j);
    }
}

/// The scrobbles after the one at `i` leave its parameters as they were.
proof fn lemma_later_scrobbles_keep<'a>(s: Seq<Scrobble<'a>>, i: int, n: int, name: Seq<char>)
    requires
        0 <= i < n <= s.len(),
        batch_name(name),
    ensures
        scrobbles_parameters(s, n).dom().contains(indexed_key(name, i)) == scrobbles_parameters(s, i + 1).dom().contains(
            indexed_key(name, i),
        ),
        scrobbles_parameters(s, n)[indexed_key(name, i)] == scrobbles_parameters(s, i + 1)[indexed_key(name, i)],
    decreases n,
{
    if n > i + 1 {
        lemma_later_scrobbles_keep(s, i, n - 1, name);
        lemma_key_differs(name, i, "artist"@, n - 1);
        lemma_key_differs(name, i, "track"@, n - 1);
        lemma_key_differs(name, i, "timestamp"@, n - 1);
        lemma_key_differs(name, i, "album"@, n - 1);
        lemma_key_differs(name, i, "chosenByUser"@, n - 1);
        lemma_key_differs(name, i, "mbid"@, n - 1);
        lemma_key_differs(name, i, "albumArtist"@, n - 1);
        lemma_key_differs(name, i, "duration"@, n - 1);
    }
}

/// The parameters of the first `n` scrobbles are all under indices below `n`.
proof fn lemma_batch_keys<'a>(s: Seq<Scrobble<'a>>, n: int)
    requires
        0 <= n <= s.len(),
    ensures
        forall|k: Seq<u8>| #[trigger] scrobbles_parameters(s, n).dom().contains(k) ==> exists|name: Seq<char>, j: int|
            batch_name(name) && 0 <= j < n && k == indexed_key(name, j),
    decreases n,
{
    if n > 0 {
        lemma_batch_keys(s, n - 1);
        let j = n - 1;
        assert forall|k: Seq<u8>| #[trigger] scrobbles_parameters(s, n).dom().contains(k) implies exists|name: Seq<char>, j: int|
            batch_name(name) && 0 <= j < n && k == indexed_key(name, j) by {
            if !scrobbles_parameters(s, n - 1).dom().contains(k) {
                if k == indexed_key("artist"@, j) { assert(batch_name("artist"@)); }
                else if k == indexed_key("track"@, j) { assert(batch_name("track"@)); }
                else if k == indexed_key("timestamp"@, j) { assert(batch_name("timestamp"@)); }
                else if k == indexed_key("album"@, j) { assert(batch_name("album"@)); }
                else if k == indexed_key("chosenByUser"@, j) { assert(batch_name("chosenByUser"@)); }
                else if k == indexed_key("mbid"@, j) { assert(batch_name("mbid"@)); }
                else if k == indexed_key("albumArtist"@, j) { assert(batch_name("albumArtist"@)); }
                else { assert(k == indexed_key("duration"@, j)); assert(batch_name("duration"@)); }
            }
        }
    }
}

/// In the parameters of a batch of scrobbles, each scrobble's artist, track and timestamp
/// stand under its own index; so does its album, and its album's artist, exactly where it
/// has one: a scrobble without an album sends no album parameter.
pub proof fn law_scrobble_batch_parameters<'a>(s: Seq<Scrobble<'a>>, i: int)
    requires
        0 <= i < s.len(),
    ensures
        ({
            let m = scrobbles_parameters(s, s.len() as int);
            &&& m.dom().contains(indexed_key("artist"@, i)) && m[indexed_key("artist"@, i)] == encode_utf8(s[i].info.artist@)
            &&& m.dom().contains(indexed_key("track"@, i)) && m[indexed_key("track"@, i)] == encode_utf8(s[i].info.track@)
            &&& m.dom().contains(indexed_key("timestamp"@, i)) && m[indexed_key("timestamp"@, i)] == encode_utf8(
                signed_decimal(s[i].timestamp as int),
            )
            &&& m.dom().contains(indexed_key("album"@, i)) <==> s[i].info.album is Some
            &&& (s[i].info.album matches Some(a) ==> m[indexed_key("album"@, i)] == encode_utf8(a@))
            &&& m.dom().contains(indexed_key("albumArtist"@, i)) <==> s[i].info.album_artist is Some
            &&& (s[i].info.album_artist matches Some(a) ==> m[indexed_key("albumArtist"@, i)] == encode_utf8(a@))
        }),
{
    lemma_batch_names();
    lemma_indexed_keys_distinct();
    lemma_batch_keys(s, i);
    let n = s.len() as int;
    let names = seq!["artist"@, "track"@, "timestamp"@, "album"@, "albumArtist"@];
    assert forall|k: int| 0 <= k < names.len() implies batch_name(#[trigger] names[k]) by {}
    lemma_later_scrobbles_keep(s, i, n, "artist"@);
    lemma_later_scrobbles_keep(s, i, n, "track"@);
    lemma_later_scrobbles_keep(s, i, n, "timestamp"@);
    lemma_later_scrobbles_keep(s, i, n, "album"@);
    lemma_later_scrobbles_keep(s, i, n, "albumArtist"@);
    let before = scrobbles_parameters(s, i);
    assert(scrobbles_parameters(s, i + 1) == with_scrobble(before, s[i], i));
    assert forall|name: Seq<char>| batch_name(name) implies !#[trigger] before.dom().contains(indexed_key(name, i)) by {
        if before.dom().contains(indexed_key(name, i)) {
            let (nm, j) = choose|nm: Seq<char>, j: int| batch_name(nm) && 0 <= j < i && indexed_key(name, i) == indexed_key(nm, j);
            lemma_indexed_key_injective(name, i, nm, j);
        }
    }
    assert(!before.dom().contains(indexed_key("album"@, i)));
    assert(!before.dom().contains(indexed_key("albumArtist"@, i)));
}

/// The parameters set by a list of entries added in order.
pub open spec fn collection_parameters<'a>(c: Seq<(String, MaybeOwnedString<'a>)>) -> Map<Seq<u8>, Seq<u8>>
    decreases c.len(),
{
    if c.len() == 0 {
        Map::empty()
    } else {
        collection_parameters(c.drop_last()).insert(encode_utf8(c.last().0@), encode_utf8(c.last().1@))
    }
}

/// The parameters of a request: keys, each with one value.
pub struct ParameterMap<'a> {
    entries: Vec<(String, MaybeOwnedString<'a>)>,
}

/// The bytes of a parameter entry.
pub open spec fn entry_bytes<'a>(e: (String, MaybeOwnedString<'a>)) -> (Seq<u8>, Seq<u8>) {
    (encode_utf8(e.0@), encode_utf8(e.1@))
}

impl<'a> ParameterMap<'a> {
    /// The entries' bytes, in the order they were added.
    pub closed spec fn byte_entries(&self) -> Seq<(Seq<u8>, Seq<u8>)> {
        self.entries@.map_values(|e: (String, MaybeOwnedString<'a>)| entry_bytes(e))
    }

    /// Whether no two entries share a key.
    pub open spec fn wf(&self) -> bool {
        keys_distinct(self.byte_entries())
    }

    /// The parameters set: each key's bytes, with its value's bytes.
    pub open spec fn parameters(&self) -> Map<Seq<u8>, Seq<u8>> {
        entries_map(self.byte_entries())
    }

    /// No parameters.
    pub fn new() -> (r: Self)
        ensures
            r.wf(),
            r.byte_entries().len() == 0,
            r.parameters() == Map::<Seq<u8>, Seq<u8>>::empty(),
    {
        let r = ParameterMap { entries: Vec::new() };
        assert(r.byte_entries() =~= Seq::<(Seq<u8>, Seq<u8>)>::empty());
        r
    }

    /// Sets the value of `key`, replacing any it had.
    #[verifier::loop_isolation(false)]
    pub fn add(&mut self, key: String, value: MaybeOwnedString<'a>)
        requires
            old(self).wf(),
        ensures
            final(self).wf(),
            forall|i: int| 0 <= i < old(self).byte_entries().len() && #[trigger] old(self).byte_entries()[i].0 == encode_utf8(key@)
                ==> final(self).byte_entries() == old(self).byte_entries().update(i, (encode_utf8(key@), encode_utf8(value@))),
            (forall|i: int| 0 <= i < old(self).byte_entries().len() ==> #[trigger] old(self).byte_entries()[i].0 != encode_utf8(key@))
                ==> final(self).byte_entries() == old(self).byte_entries().push((encode_utf8(key@), encode_utf8(value@))),
            final(self).parameters() == old(self).parameters().insert(encode_utf8(key@), encode_utf8(value@)),
    {
        let ghost before = self.byte_entries();
        let mut i: usize = 0;
        while i < self.entries.len()
            invariant
                i <= self.entries@.len(),
                self.byte_entries() == before,
                before.len() == self.entries@.len(),
                keys_distinct(before),
                forall|j: int| 0 <= j < i ==> #[trigger] before[j].0 != encode_utf8(key@),
            decreases self.entries@.len() - i,
        {
            if crate::text::str_eq(self.entries[i].0.as_str(), key.as_str()) {
                let mut slot = (key, value);
                let ghost new_entry = entry_bytes(slot);
                proof {
                    assert(before[i as int].0 == encode_utf8(key@));
                }
                std::mem::swap(&mut slot, &mut self.entries[i]);
                proof {
                    assert(self.byte_entries() =~= before.update(i as int, new_entry));
                    lemma_entries_map_update(before, i as int, new_entry.1);
                }
                return;
            }
            i = i + 1;
        }
        let ghost new_entry = entry_bytes((key, value));
        self.entries.push((key, value));
        proof {
            assert(self.byte_entries() =~= before.push(new_entry));
            assert(self.byte_entries().drop_last() =~= before);
            assert forall|a: int, b: int| 0 <= a < self.byte_entries().len() && 0 <= b < self.byte_entries().len() && a != b
                implies #[trigger] self.byte_entries()[a].0 != #[trigger] self.byte_entries()[b].0 by {
                if a < before.len() && b < before.len() {
                    assert(before[a] == self.byte_entries()[a]);
                    assert(before[b] == self.byte_entries()[b]);
                }
            }
        }
    }

    /// The signature of these parameters for `identity`: the MD5 digest, in lowercase
    /// hexadecimal, of each key followed by its value, keys in byte order, then the secret.
    ///
    /// The session key is part of the parameters where the request needs one; the argument
    /// itself adds nothing.
    pub fn sign(&self, session_key: &SessionKey, identity: &ClientIdentity) -> (r: ApiSignature)
        requires
            self.wf(),
        ensures
            r.0@ == lower_hex(md5_digest(signing_text(self.byte_entries()) + identity.secret_view())),
            r.0@ == lower_hex(md5_digest(parameters_signing_text(self.parameters()) + identity.secret_view())),
    {
        proof {
            lemma_parameters_signing_text(self.byte_entries());
        }
        let ghost es = self.byte_entries();
        let mut rest: Vec<usize> = Vec::new();
        let mut k: usize = 0;
        while k < self.entries.len()
            invariant
                k <= self.entries@.len(),
                rest@ == Seq::new(k as nat, |j: int| j as usize),
            decreases self.entries@.len() - k,
        {
            rest.push(k);
            k = k + 1;
            assert(rest@ =~= Seq::new(k as nat, |j: int| j as usize));
        }
        let mut text: Vec<u8> = Vec::new();
        let n = self.entries.len();
        proof {
            assert(rest@.map_values(|i: usize| es[i as int]) =~= es);
        }
        while rest.len() > 0
            invariant
                es == self.byte_entries(),
                n == self.entries@.len(),
                es.len() == n,
                keys_distinct(es),
                forall|a: int| 0 <= a < rest@.len() ==> (#[trigger] rest@[a]) < n,
                forall|a: int, b: int| 0 <= a < rest@.len() && 0 <= b < rest@.len() && a != b ==> #[trigger] rest@[a] != #[trigger] rest@[b],
                text@ + signing_text(rest@.map_values(|i: usize| es[i as int])) == signing_text(es),
            decreases rest@.len(),
        {
            let ghost view = rest@.map_values(|i: usize| es[i as int]);
            let mut best: usize = 0;
            let mut p: usize = 1;
            while p < rest.len()
                invariant
                    es == self.byte_entries(),
                    keys_distinct(es),
                    view == rest@.map_values(|i: usize| es[i as int]),
                    forall|a: int| 0 <= a < rest@.len() ==> (#[trigger] rest@[a]) < n,
                    forall|a: int, b: int| 0 <= a < rest@.len() && 0 <= b < rest@.len() && a != b ==> #[trigger] rest@[a] != #[trigger] rest@[b],
                    n == self.entries@.len(),
                    best < rest@.len(),
                    1 <= p <= rest@.len(),
                    best < p,
                    forall|q: int| 0 <= q < p && q != best ==> lex_lt(view[best as int].0, #[trigger] view[q].0),
                decreases rest@.len() - p,
            {
                let a = self.entries[rest[p]].0.as_str().as_bytes();
                let b = self.entries[rest[best]].0.as_str().as_bytes();
                proof {
                    assert(a@ == view[p as int].0);
                    assert(b@ == view[best as int].0);
                    assert(view[p as int].0 != view[best as int].0);
                    lemma_lex_total(a@, b@);
                }
                if lex_lt_exec(a, b) {
                    proof {
                        assert forall|q: int| 0 <= q < p + 1 && q != p implies lex_lt(view[p as int].0, #[trigger] view[q].0) by {
                            if q != best {
                                lemma_lex_trans(view[p as int].0, view[best as int].0, view[q].0);
                            }
                        }
                    }
                    best = p;
                }
                p = p + 1;
            }
            proof {
                assert(is_least(view, best as int));
                let m = choose|m: int| is_least(view, m);
                lemma_least_unique(view, m, best as int);
            }
            let ghost rest_before = rest@;
            let idx = rest.remove(best);
            let ghost before = text@;
            append_bytes(&mut text, self.entries[idx].0.as_str().as_bytes());
            append_bytes(&mut text, self.entries[idx].1.as_str().as_bytes());
            proof {
                assert(rest@.map_values(|i: usize| es[i as int]) =~= view.remove(best as int));
                assert(view[best as int] == es[idx as int]);
                assert(text@ =~= before + es[idx as int].0 + es[idx as int].1);
                assert(before + (es[idx as int].0 + es[idx as int].1 + signing_text(view.remove(best as int))) =~= text@ + signing_text(view.remove(best as int)));
                assert forall|a: int, b: int| 0 <= a < rest@.len() && 0 <= b < rest@.len() && a != b implies #[trigger] rest@[a] != #[trigger] rest@[b] by {
                    let a0 = if a < best { a } else { a + 1 };
                    let b0 = if b < best { b } else { b + 1 };
                    assert(rest@[a] == rest_before[a0]);
                    assert(rest@[b] == rest_before[b0]);
                }
            }
        }
        proof {
            assert(rest@.map_values(|i: usize| es[i as int]) =~= Seq::<(Seq<u8>, Seq<u8>)>::empty());
            assert(text@ + Seq::<u8>::empty() =~= text@);
        }
        append_bytes(&mut text, identity.get_secret_str().as_bytes());
        ApiSignature(ThirtyTwoCharactersLowercaseHexAsciiString::md5_of(text.as_slice()))
    }
}

impl<'a> ParameterMap<'a> {
    /// The parameters set by the given entries, added in order: a later entry replaces an
    /// earlier one of the same key.
    pub fn from_collection(collection: Vec<(String, MaybeOwnedString<'a>)>) -> (r: Self)
        ensures
            r.wf(),
            r.parameters() == collection_parameters(collection@),
    {
        let mut map = ParameterMap::new();
        let mut rest = collection;
        let ghost all = rest@;
        let ghost mut k: int = 0;
        while rest.len() > 0
            invariant
                map.wf(),
                0 <= k <= all.len(),
                rest@ == all.skip(k),
                map.parameters() == collection_parameters(all.take(k)),
            decreases rest@.len(),
        {
            let (key, value) = rest.remove(0);
            proof {
                assert(all[k] == (key, value));
                assert(all.take(k + 1).drop_last() =~= all.take(k));
                assert(all.take(k + 1).last() == all[k]);
            }
            map.add(key, value);
            proof {
                k = k + 1;
                assert(rest@ =~= all.skip(k));
            }
        }
        proof {
            assert(all.take(k) =~= all);
        }
        map
    }

    /// The parameters that describe a heard track: artist and track, then the album, MusicBrainz
    /// id, album artist and duration where they are known.
    pub fn from_track(track: &'a HeardTrackInfo<'a>) -> (r: Self)
        ensures
            r.wf(),
            r.parameters() == track_parameters(*track),
    {
        let mut map = ParameterMap::new();
        map.add(String::from_str("artist"), MaybeOwnedString::Borrowed(track.artist));
        map.add(String::from_str("track"), MaybeOwnedString::Borrowed(track.track));
        if let Some(album) = track.album {
            map.add(String::from_str("album"), MaybeOwnedString::Borrowed(album));
        }
        if let Some(mbid) = &track.mbid {
            map.add(String::from_str("mbid"), MaybeOwnedString::Borrowed(mbid.as_str()));
        }
        if let Some(album_artist) = track.album_artist {
            map.add(String::from_str("albumArtist"), MaybeOwnedString::Borrowed(album_artist));
        }
        if let Some(duration) = track.duration_in_seconds {
            map.add(String::from_str("duration"), MaybeOwnedString::Owned(to_decimal(duration as u64)));
        }
        assert(map.parameters() =~= track_parameters(*track));
        map
    }

    /// The parameters that describe a batch of scrobbles, each name followed by the
    /// scrobble's index in brackets.
    pub fn from_scrobbles(scrobbles: &'a [Scrobble<'a>]) -> (r: Self)
        ensures
            r.wf(),
            r.parameters() == scrobbles_parameters(scrobbles@, scrobbles@.len() as int),
    {
        let mut map = ParameterMap::new();
        let mut i: usize = 0;
        while i < scrobbles.len()
            invariant
                map.wf(),
                i <= scrobbles@.len(),
                map.parameters() == scrobbles_parameters(scrobbles@, i as int),
            decreases scrobbles@.len() - i,
        {
            let s = &scrobbles[i];
            let ghost start = map.parameters();
            map.add(indexed("artist", i), MaybeOwnedString::Borrowed(s.info.artist));
            map.add(indexed("track", i), MaybeOwnedString::Borrowed(s.info.track));
            map.add(indexed("timestamp", i), MaybeOwnedString::Owned(to_signed_decimal(s.timestamp)));
            if let Some(album) = s.info.album {
                map.add(indexed("album", i), MaybeOwnedString::Borrowed(album));
            }
            if let Some(chosen) = s.chosen_by_user {
                map.add(indexed("chosenByUser", i), MaybeOwnedString::Borrowed(if chosen { "1" } else { "0" }));
            }
            if let Some(mbid) = &s.info.mbid {
                map.add(indexed("mbid", i), MaybeOwnedString::Borrowed(mbid.as_str()));
            }
            if let Some(album_artist) = s.info.album_artist {
                map.add(indexed("albumArtist", i), MaybeOwnedString::Borrowed(album_artist));
            }
            if let Some(duration) = s.info.duration_in_seconds {
                map.add(indexed("duration", i), MaybeOwnedString::Owned(to_decimal(duration as u64)));
            }
            proof {
                assert(map.parameters() =~= with_scrobble(start, scrobbles@[i as int], i as int));
            }
            i = i + 1;
        }
        map
    }

    /// The parameters of a request to `endpoint`, as any request sends them: with the method,
    /// the program's key and the JSON format.
    pub fn for_request(self, endpoint: &'a str, identity: &'a ClientIdentity) -> (r: Self)
        requires
            self.wf(),
        ensures
            r.wf(),
            r.parameters() == self.parameters()
                .insert(encode_utf8("method"@), encode_utf8(endpoint@))
                .insert(encode_utf8("api_key"@), identity.key_view())
                .insert(encode_utf8("format"@), encode_utf8("json"@)),
    {
        let mut map = self;
        map.add(String::from_str("method"), MaybeOwnedString::Borrowed(endpoint));
        map.add(String::from_str("api_key"), MaybeOwnedString::Borrowed(identity.get_key_str()));
        map.add(String::from_str("format"), MaybeOwnedString::Borrowed("json"));
        map
    }

    /// The parameters of an authorized request: with the session key, then the signature of
    /// the parameters so far under the program's secret.
    pub fn for_session(self, session_key: &'a SessionKey, identity: &ClientIdentity) -> (r: Self)
        requires
            self.wf(),
        ensures
            r.wf(),
            ({
                let keyed = self.parameters().insert(encode_utf8("sk"@), session_key.0@);
                r.parameters() == keyed.insert(
                    encode_utf8("api_sig"@),
                    lower_hex(md5_digest(parameters_signing_text(keyed) + identity.secret_view())),
                )
            }),
    {
        let mut map = self;
        map.add(String::from_str("sk"), MaybeOwnedString::Borrowed(session_key.as_str()));
        let signature = map.sign(session_key, identity);
        map.add(String::from_str("api_sig"), MaybeOwnedString::Owned(String::from_str(signature.as_str())));
        map
    }

    /// The parameters, as text pairs, in the order they were added.
    pub fn pairs(&self) -> (r: Vec<(String, String)>)
        ensures
            r@.len() == self.byte_entries().len(),
            forall|i: int| 0 <= i < r@.len() ==> (encode_utf8((#[trigger] r@[i]).0@), encode_utf8(r@[i].1@)) == self.byte_entries()[i],
    {
        let mut out: Vec<(String, String)> = Vec::new();
        let mut i: usize = 0;
        while i < self.entries.len()
            invariant
                i <= self.entries@.len(),
                out@.len() == i,
                self.byte_entries().len() == self.entries@.len(),
                forall|j: int| 0 <= j < i ==> (encode_utf8((#[trigger] out@[j]).0@), encode_utf8(out@[j].1@)) == self.byte_entries()[j],
            decreases self.entries@.len() - i,
        {
            out.push((String::from_str(self.entries[i].0.as_str()), String::from_str(self.entries[i].1.as_str())));
            i = i + 1;
        }
        out
    }
}

/// A parameter name followed by an index in brackets.
fn indexed(name: &str, i: usize) -> (r: String)
    ensures
        r@ == name@ + seq!['['] + crate::num::decimal(i as nat) + seq![']'],
{
    let mut out = String::from_str(name);
    crate::unaligned_u16::utf16::push_char(&mut out, '[');
    crate::num::push_decimal(i as u64, &mut out);
    crate::unaligned_u16::utf16::push_char(&mut out, ']');
    out
}

/// Whether `a` comes before `b` in byte order.
pub fn lex_lt_exec(a: &[u8], b: &[u8]) -> (r: bool)
    ensures
        r == lex_lt(a@, b@),
{
    let mut i: usize = 0;
    assert(a@.skip(0) =~= a@);
    assert(b@.skip(0) =~= b@);
    while i < a.len() && i < b.len()
        invariant
            i <= a@.len(),
            i <= b@.len(),
            lex_lt(a@, b@) == lex_lt(a@.skip(i as int), b@.skip(i as int)),
        decreases a@.len() - i,
    {
        if a[i] != b[i] {
            proof {
                assert(a@.skip(i as int)[0] == a@[i as int]);
                assert(b@.skip(i as int)[0] == b@[i as int]);
            }
            return a[i] < b[i];
        }
        proof {
            assert(a@.skip(i as int).drop_first() =~= a@.skip(i as int + 1));
            assert(b@.skip(i as int).drop_first() =~= b@.skip(i as int + 1));
        }
        i = i + 1;
    }
    proof {
        assert(a@.skip(i as int).len() == 0 || b@.skip(i as int).len() == 0);
    }
    i == a.len() && i < b.len()
}

} // verus!
