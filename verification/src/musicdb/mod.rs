//! The Apple Music library file: its packed form, its chunks, and the view of the library
//! that they make.
pub mod chunk;
pub mod id;
pub mod version;
pub mod boma;
pub mod chunks;
pub mod packed;
pub mod cli;

use vstd::prelude::*;
use std::collections::HashMap;
use boma::{Boma, BomaReadError};
use chunk::{le_bytes, ChunkCursor};
use chunks::{
    read_account_list_optional, read_album_map, read_artist_map, read_collection_list, read_header_repeat,
    read_library_master, read_track_map, Account, Album, Artist, ChunkError, Collection, CollectionReadError,
    EntityReadError, ListReadError, SectionBoundary, Track, TrackReadError, fixed_chunk_fits, fixed_end, fixed_fits_at,
    repeat_version, master_end, master_fits, list_end, list_fits, album_fits_fn, artist_fits_fn, account_fits_fn,
    track_plain_fn, track_needed_fn, collection_plain_fn, collection_needed_fn, list_count, map_holds, seq_holds,
    album_at_fn, artist_at_fn, account_at_fn, track_at_fn, collection_at_fn, bomas_read_at,
};
use version::AppleMusicVersion;
use id::{AccountKind, AlbumKind, ArtistKind, CollectionKind, PersistentId, TrackKind};

verus! {

broadcast use vstd::std_specs::hash::group_hash_axioms;

/// A bit rate, in kilobits per second.
#[derive(Debug, Clone, Copy, PartialEq, Eq, Structural)]
pub struct KilobitsPerSecond(pub u32);

impl KilobitsPerSecond {
    /// The number of kilobits per second.
    pub fn into_inner(self) -> (r: u32)
        ensures
            r == self.0,
    {
        self.0
    }
}

/// Why the view of a library could not be read.
#[derive(Debug)]
pub enum ViewReadError<'a> {
    Boundary(ChunkError),
    HeaderRepeat(ChunkError),
    Library(ListReadError<BomaReadError>),
    Albums(ListReadError<EntityReadError>),
    Artists(ListReadError<EntityReadError>),
    Accounts(ListReadError<EntityReadError>),
    Tracks(ListReadError<TrackReadError<'a>>),
    Collections(ListReadError<CollectionReadError<'a>>),
}

/// The decoded contents of a library.
#[derive(Debug)]
pub struct MusicDbView<'a> {
    pub library: Vec<Boma<'a>>,
    pub albums: HashMap<u64, Album<'a>>,
    pub artists: HashMap<u64, Artist<'a>>,
    /// The Apple Music accounts of the library; not always present.
    pub accounts: Option<Vec<Account<'a>>>,
    pub tracks: HashMap<u64, Track<'a>>,
    /// Playlists and other collections of tracks.
    pub collections: Vec<Collection<'a>>,
}

/// Whether the view of a library can be read from `p` of `b`, where `known` is the version
/// known before: a boundary before each section, the repeated header (which gives the
/// version), the library master, the albums, the artists, the accounts where present, the
/// tracks and the collections. With `plain`, the tracks and collections are held to what
/// is enough for reading them, else to what reading them needs.
pub open spec fn view_fits(b: Seq<u8>, p: int, known: Option<AppleMusicVersion>, plain: bool) -> bool {
    let hsma = seq![104u8, 115, 109, 97];
    let p2 = fixed_end(b, p);
    let version = repeat_version(b, p2, known);
    let p3 = fixed_end(b, p2);
    let p4 = fixed_end(b, p3);
    let p5 = master_end(b, p4);
    let p6 = fixed_end(b, p5);
    let p7 = list_end(b, p6);
    let p8 = fixed_end(b, p7);
    let p9 = list_end(b, p8);
    let p10 = fixed_end(b, p9);
    let has_accounts = b.subrange(p10, b.len() as int).take(4) == seq![76u8, 115, 109, 97];
    let p11 = list_end(b, p10);
    let p12 = if has_accounts { fixed_end(b, p11) } else { p10 };
    let p13 = list_end(b, p12);
    let p14 = fixed_end(b, p13);
    &&& fixed_fits_at(b, p, hsma, 12)
    &&& fixed_fits_at(b, p2, seq![104u8, 102, 109, 97], 12)
    &&& fixed_fits_at(b, p3, hsma, 12)
    &&& master_fits(b, p4, version)
    &&& fixed_fits_at(b, p5, hsma, 12)
    &&& list_fits(b, p6, seq![108u8, 97, 109, 97], album_fits_fn(b, version))
    &&& fixed_fits_at(b, p7, hsma, 12)
    &&& list_fits(b, p8, seq![108u8, 65, 109, 97], artist_fits_fn(b, version))
    &&& fixed_fits_at(b, p9, hsma, 12)
    &&& 4 <= b.len() - p10
    &&& (has_accounts ==> list_fits(b, p10, seq![76u8, 115, 109, 97], account_fits_fn(b, version)) && fixed_fits_at(b, p11, hsma, 12))
    &&& list_fits(b, p12, seq![108u8, 116, 109, 97], if plain { track_plain_fn(b, version) } else { track_needed_fn(b, version) })
    &&& fixed_fits_at(b, p13, hsma, 12)
    &&& list_fits(b, p14, seq![108u8, 80, 109, 97], if plain { collection_plain_fn(b, version) } else { collection_needed_fn(b, version) })
}

/// Where the library master starts, for a view read from `p` of `b`: after a boundary, the
/// repeated header and another boundary.
pub open spec fn master_pos(b: Seq<u8>, p: int) -> int {
    fixed_end(b, fixed_end(b, fixed_end(b, p)))
}

/// The version known once the repeated header of a view read from `p` of `b` is read.
pub open spec fn view_version(b: Seq<u8>, p: int, known: Option<AppleMusicVersion>) -> Option<AppleMusicVersion> {
    repeat_version(b, fixed_end(b, p), known)
}

/// Where the album list starts, for a view read from `p` of `b`.
pub open spec fn albums_pos(b: Seq<u8>, p: int) -> int {
    fixed_end(b, master_end(b, master_pos(b, p)))
}

/// Where the artist list starts, for a view read from `p` of `b`.
pub open spec fn artists_pos(b: Seq<u8>, p: int) -> int {
    fixed_end(b, list_end(b, albums_pos(b, p)))
}

/// Where the account list starts, if there is one, for a view read from `p` of `b`.
pub open spec fn accounts_pos(b: Seq<u8>, p: int) -> int {
    fixed_end(b, list_end(b, artists_pos(b, p)))
}

/// Whether a view read from `p` of `b` holds an account list.
pub open spec fn has_accounts(b: Seq<u8>, p: int) -> bool {
    b.subrange(accounts_pos(b, p), b.len() as int).take(4) == seq![76u8, 115, 109, 97]
}

/// Where the track list starts, for a view read from `p` of `b`.
pub open spec fn tracks_pos(b: Seq<u8>, p: int) -> int {
    if has_accounts(b, p) {
        fixed_end(b, list_end(b, accounts_pos(b, p)))
    } else {
        accounts_pos(b, p)
    }
}

/// Where the collection list starts, for a view read from `p` of `b`.
pub open spec fn collections_pos(b: Seq<u8>, p: int) -> int {
    fixed_end(b, list_end(b, tracks_pos(b, p)))
}

/// Whether `v` holds what the sections of a view read from `p` of `b` hold: the library
/// master's bomas, the albums, artists and tracks by id, the accounts where there is an
/// account list, and the collections in order.
pub open spec fn view_holds<'a>(b: Seq<u8>, p: int, v: MusicDbView<'a>) -> bool {
    &&& bomas_read_at(b, fixed_end(b, master_pos(b, p)), list_count(b, master_pos(b, p)) as nat, v.library@)
    &&& map_holds(b, fixed_end(b, albums_pos(b, p)), list_count(b, albums_pos(b, p)), v.albums@, album_at_fn(b))
    &&& map_holds(b, fixed_end(b, artists_pos(b, p)), list_count(b, artists_pos(b, p)), v.artists@, artist_at_fn(b))
    &&& (v.accounts is Some <==> has_accounts(b, p))
    &&& (v.accounts matches Some(a) ==> seq_holds(b, fixed_end(b, accounts_pos(b, p)), list_count(b, accounts_pos(b, p)), a@,
        account_at_fn(b)))
    &&& map_holds(b, fixed_end(b, tracks_pos(b, p)), list_count(b, tracks_pos(b, p)), v.tracks@, track_at_fn(b))
    &&& seq_holds(b, fixed_end(b, collections_pos(b, p)), list_count(b, collections_pos(b, p)), v.collections@,
        collection_at_fn(b))
}

/// Reads a section boundary.
fn boundary<'a>(cursor: &mut ChunkCursor<'a>) -> (r: Result<(), ViewReadError<'a>>)
    requires
        old(cursor).wf(),
    ensures
        final(cursor).wf(),
        final(cursor).bytes() == old(cursor).bytes(),
        r is Ok <==> fixed_chunk_fits(*old(cursor), seq![104u8, 115, 109, 97], 12),
        r is Ok ==> final(cursor).pos() == old(cursor).pos() + le_bytes(old(cursor).bytes(), old(cursor).pos() + 4, 4),
        final(cursor).app_version() == old(cursor).app_version(),
{
    match SectionBoundary::read(cursor) {
        Ok(_) => Ok(()),
        Err(e) => Err(ViewReadError::Boundary(e)),
    }
}

impl<'a> MusicDbView<'a> {
    /// Reads the decoded library at the cursor: sections, each after a boundary, of the
    /// repeated header, the library master, the albums, the artists, the accounts (where
    /// present), the tracks and the collections.
    #[verifier::rlimit(100)]
    #[verifier::spinoff_prover]
    pub fn with_cursor(cursor: &mut ChunkCursor<'a>) -> (r: Result<Self, ViewReadError<'a>>)
        requires
            old(cursor).wf(),
        ensures
            final(cursor).wf(),
            final(cursor).bytes() == old(cursor).bytes(),
            r matches Ok(v) ==> {
                &&& forall|k: u64| #[trigger] v.albums@.contains_key(k) ==> v.albums@[k].persistent_id.0 == k
                &&& forall|k: u64| #[trigger] v.artists@.contains_key(k) ==> v.artists@[k].persistent_id.0 == k
                &&& forall|k: u64| #[trigger] v.tracks@.contains_key(k) ==> v.tracks@[k].persistent_id.0 == k
            },
            r is Ok ==> view_fits(old(cursor).bytes(), old(cursor).pos(), old(cursor).app_version(), false),
            view_fits(old(cursor).bytes(), old(cursor).pos(), old(cursor).app_version(), true) ==> r is Ok,
            r matches Ok(v) ==> view_holds(old(cursor).bytes(), old(cursor).pos(), v),
    {
        boundary(cursor)?;
        match read_header_repeat(cursor) {
            Ok(()) => {},
            Err(e) => { return Err(ViewReadError::HeaderRepeat(e)); },
        }
        boundary(cursor)?;
        let library = match read_library_master(cursor) { Ok(v) => v, Err(e) => { return Err(ViewReadError::Library(e)); } };
        boundary(cursor)?;
        let albums = match read_album_map(cursor) { Ok(v) => v, Err(e) => { return Err(ViewReadError::Albums(e)); } };
        boundary(cursor)?;
        let artists = match read_artist_map(cursor) { Ok(v) => v, Err(e) => { return Err(ViewReadError::Artists(e)); } };
        boundary(cursor)?;
        let accounts = match read_account_list_optional(cursor) { Ok(v) => v, Err(e) => { return Err(ViewReadError::Accounts(e)); } };
        if accounts.is_some() {
            boundary(cursor)?;
        }
        let tracks = match read_track_map(cursor) { Ok(v) => v, Err(e) => { return Err(ViewReadError::Tracks(e)); } };
        boundary(cursor)?;
        let collections = match read_collection_list(cursor) { Ok(v) => v, Err(e) => { return Err(ViewReadError::Collections(e)); } };
        Ok(MusicDbView { library, albums, artists, accounts, tracks, collections })
    }

    /// The track with the given id.
    pub fn get_track(&self, id: PersistentId<TrackKind>) -> (r: Option<&Track<'a>>)
        ensures
            match r {
                Some(t) => self.tracks@.contains_key(id.0) && self.tracks@[id.0] == *t,
                None => !self.tracks@.contains_key(id.0),
            },
    {
        self.tracks.get(&id.0)
    }

    /// The album with the given id.
    pub fn get_album(&self, id: PersistentId<AlbumKind>) -> (r: Option<&Album<'a>>)
        ensures
            match r {
                Some(a) => self.albums@.contains_key(id.0) && self.albums@[id.0] == *a,
                None => !self.albums@.contains_key(id.0),
            },
    {
        self.albums.get(&id.0)
    }

    /// The artist with the given id.
    pub fn get_artist(&self, id: PersistentId<ArtistKind>) -> (r: Option<&Artist<'a>>)
        ensures
            match r {
                Some(a) => self.artists@.contains_key(id.0) && self.artists@[id.0] == *a,
                None => !self.artists@.contains_key(id.0),
            },
    {
        self.artists.get(&id.0)
    }

    /// The first collection with the given id.
    pub fn get_collection(&self, id: PersistentId<CollectionKind>) -> (r: Option<&Collection<'a>>)
        ensures
            match r {
                Some(c) => c.persistent_id.0 == id.0 && exists|i: int| 0 <= i < self.collections@.len() && self.collections@[i] == *c,
                None => forall|i: int| 0 <= i < self.collections@.len() ==> #[trigger] self.collections@[i].persistent_id.0 != id.0,
            },
    {
        let mut i: usize = 0;
        while i < self.collections.len()
            invariant
                forall|j: int| 0 <= j < i ==> #[trigger] self.collections@[j].persistent_id.0 != id.0,
            decreases self.collections@.len() - i,
        {
            if self.collections[i].persistent_id.0 == id.0 {
                return Some(&self.collections[i]);
            }
            i = i + 1;
        }
        None
    }

    /// The first account with the given id, where the library has accounts.
    pub fn get_account(&self, id: PersistentId<AccountKind>) -> (r: Option<&Account<'a>>)
        ensures
            match self.accounts {
                None => r is None,
                Some(accounts) => match r {
                    Some(a) => a.persistent_id.0 == id.0 && exists|i: int| 0 <= i < accounts@.len() && accounts@[i] == *a,
                    None => forall|i: int| 0 <= i < accounts@.len() ==> #[trigger] accounts@[i].persistent_id.0 != id.0,
                },
            },
    {
        match &self.accounts {
            None => None,
            Some(accounts) => {
                let mut i: usize = 0;
                while i < accounts.len()
                    invariant
                        self.accounts == Some(*accounts),
                        forall|j: int| 0 <= j < i ==> #[trigger] accounts@[j].persistent_id.0 != id.0,
                    decreases accounts@.len() - i,
                {
                    if accounts[i].persistent_id.0 == id.0 {
                        return Some(&accounts[i]);
                    }
                    i = i + 1;
                }
                None
            },
        }
    }
}

/// The entries of `map` whose keys are among `keys`.
fn keep_keys<V>(map: HashMap<u64, V>, keys: &Vec<u64>) -> (r: HashMap<u64, V>)
    ensures
        r@ == map@.restrict(keys@.to_set()),
{
    let ghost all = map@;
    let mut rest = map;
    let mut kept: HashMap<u64, V> = HashMap::new();
    let mut i: usize = 0;
    while i < keys.len()
        invariant
            i <= keys@.len(),
            kept@ == all.restrict(keys@.take(i as int).to_set()),
            rest@ == all.remove_keys(keys@.take(i as int).to_set()),
        decreases keys@.len() - i,
    {
        let k = keys[i];
        let ghost before = keys@.take(i as int).to_set();
        assert(keys@.take(i as int + 1) =~= keys@.take(i as int).push(k));
        assert(keys@.take(i as int + 1).to_set() =~= before.insert(k)) by {
            keys@.take(i as int).lemma_push_to_set_commute(k);
        }
        match rest.remove(&k) {
            Some(v) => {
                kept.insert(k, v);
            },
            None => {},
        }
        proof {
            assert(kept@ =~= all.restrict(before.insert(k)));
            assert(rest@ =~= all.remove_keys(before.insert(k)));
        }
        i = i + 1;
    }
    assert(keys@.take(keys@.len() as int) =~= keys@);
    kept
}

impl<'a> MusicDbView<'a> {
    /// Keeps only the entities whose persistent ids are among `ids`, and drops the library
    /// master.
    pub fn retain_ids(&mut self, ids: &Vec<u64>)
        ensures
            final(self).library@.len() == 0,
            final(self).albums@ == old(self).albums@.restrict(ids@.to_set()),
            final(self).artists@ == old(self).artists@.restrict(ids@.to_set()),
            final(self).tracks@ == old(self).tracks@.restrict(ids@.to_set()),
            final(self).collections@ == old(self).collections@.filter(|c: Collection<'a>| ids@.contains(c.persistent_id.0)),
            match old(self).accounts {
                Some(a) => final(self).accounts matches Some(b)
                    && b@ == a@.filter(|c: Account<'a>| ids@.contains(c.persistent_id.0)),
                None => final(self).accounts is None,
            },
    {
        self.library = Vec::new();
        let mut albums = HashMap::new();
        std::mem::swap(&mut albums, &mut self.albums);
        self.albums = keep_keys(albums, ids);
        let mut artists = HashMap::new();
        std::mem::swap(&mut artists, &mut self.artists);
        self.artists = keep_keys(artists, ids);
        let mut tracks = HashMap::new();
        std::mem::swap(&mut tracks, &mut self.tracks);
        self.tracks = keep_keys(tracks, ids);
        let mut collections = Vec::new();
        std::mem::swap(&mut collections, &mut self.collections);
        self.collections = keep_collections(collections, ids);
        let accounts = self.accounts.take();
        self.accounts = match accounts {
            Some(a) => Some(keep_accounts(a, ids)),
            None => None,
        };
    }
}

/// The collections whose persistent ids are among `ids`, in order.
fn keep_collections<'a>(items: Vec<Collection<'a>>, ids: &Vec<u64>) -> (r: Vec<Collection<'a>>)
    ensures
        r@ == items@.filter(|c: Collection<'a>| ids@.contains(c.persistent_id.0)),
{
    let ghost all = items@;
    let mut rest = items;
    let mut out: Vec<Collection<'a>> = Vec::new();
    let ghost mut k: int = 0;
    while rest.len() > 0
        invariant
            0 <= k <= all.len(),
            rest@ == all.skip(k),
            out@ == all.take(k).filter(|c: Collection<'a>| ids@.contains(c.persistent_id.0)),
        decreases rest@.len(),
    {
        let c = rest.remove(0);
        proof {
            assert(c == all[k]);
            assert(all.take(k + 1).drop_last() =~= all.take(k));
            assert(all.take(k + 1).last() == c);
            assert(all.skip(k + 1) =~= all.skip(k).drop_first());
        }
        let id = c.persistent_id.0;
        if contains_id(ids, id) {
            out.push(c);
        }
        proof {
            reveal(Seq::filter);
            k = k + 1;
        }
    }
    assert(all.take(k) =~= all);
    out
}

/// The accounts whose persistent ids are among `ids`, in order.
fn keep_accounts<'a>(items: Vec<Account<'a>>, ids: &Vec<u64>) -> (r: Vec<Account<'a>>)
    ensures
        r@ == items@.filter(|c: Account<'a>| ids@.contains(c.persistent_id.0)),
{
    let ghost all = items@;
    let mut rest = items;
    let mut out: Vec<Account<'a>> = Vec::new();
    let ghost mut k: int = 0;
    while rest.len() > 0
        invariant
            0 <= k <= all.len(),
            rest@ == all.skip(k),
            out@ == all.take(k).filter(|c: Account<'a>| ids@.contains(c.persistent_id.0)),
        decreases rest@.len(),
    {
        let c = rest.remove(0);
        proof {
            assert(c == all[k]);
            assert(all.take(k + 1).drop_last() =~= all.take(k));
            assert(all.take(k + 1).last() == c);
            assert(all.skip(k + 1) =~= all.skip(k).drop_first());
        }
        let id = c.persistent_id.0;
        if contains_id(ids, id) {
            out.push(c);
        }
        proof {
            reveal(Seq::filter);
            k = k + 1;
        }
    }
    assert(all.take(k) =~= all);
    out
}

/// Whether `id` is among `ids`.
fn contains_id(ids: &Vec<u64>, id: u64) -> (r: bool)
    ensures
        r == ids@.contains(id),
{
    let mut i: usize = 0;
    while i < ids.len()
        invariant
            i <= ids@.len(),
            forall|j: int| 0 <= j < i ==> ids@[j] != id,
        decreases ids@.len() - i,
    {
        if ids[i] == id {
            assert(ids@[i as int] == id);
            return true;
        }
        i = i + 1;
    }
    false
}

impl<'a> Track<'a> {
    /// The track's artist in `artists`.
    pub fn get_artist_on<'b>(&self, artists: &'b HashMap<u64, Artist<'a>>) -> (r: Option<&'b Artist<'a>>)
        ensures
            match r {
                Some(a) => artists@.contains_key(self.artist_id.0) && artists@[self.artist_id.0] == *a,
                None => !artists@.contains_key(self.artist_id.0),
            },
    {
        artists.get(&self.artist_id.0)
    }

    /// The track's album in `albums`.
    pub fn get_album_on<'b>(&self, albums: &'b HashMap<u64, Album<'a>>) -> (r: Option<&'b Album<'a>>)
        ensures
            match r {
                Some(a) => albums@.contains_key(self.album_id.0) && albums@[self.album_id.0] == *a,
                None => !albums@.contains_key(self.album_id.0),
            },
    {
        albums.get(&self.album_id.0)
    }
}

/// A library read from its unpacked bytes: the bytes, and the view they make.
pub struct MusicDB<'a> {
    raw: &'a [u8],
    view: MusicDbView<'a>,
}

impl<'a> MusicDB<'a> {
    /// The bytes the library was read from.
    pub closed spec fn raw_bytes(&self) -> Seq<u8> {
        self.raw@
    }

    /// The view of the library.
    pub closed spec fn contents(&self) -> MusicDbView<'a> {
        self.view
    }

    /// Reads the library from already-unpacked bytes, as [`MusicDbView::with_cursor`] reads
    /// them from their start.
    pub fn from_unpacked(data: &'a [u8]) -> (r: Result<Self, ViewReadError<'a>>)
        ensures
            r matches Ok(db) ==> {
                &&& db.raw_bytes() == data@
                &&& forall|k: u64| #[trigger] db.contents().albums@.contains_key(k) ==> db.contents().albums@[k].persistent_id.0 == k
                &&& forall|k: u64| #[trigger] db.contents().artists@.contains_key(k) ==> db.contents().artists@[k].persistent_id.0 == k
                &&& forall|k: u64| #[trigger] db.contents().tracks@.contains_key(k) ==> db.contents().tracks@[k].persistent_id.0 == k
            },
            r is Ok ==> view_fits(data@, 0, None, false),
            view_fits(data@, 0, None, true) ==> r is Ok,
            r matches Ok(db) ==> view_holds(data@, 0, db.contents()),
    {
        let mut cursor = ChunkCursor::new(data);
        let view = MusicDbView::with_cursor(&mut cursor)?;
        Ok(MusicDB { raw: data, view })
    }

    /// The bytes the library was read from.
    pub fn get_raw(&self) -> (r: &'a [u8])
        ensures
            r@ == self.raw_bytes(),
    {
        self.raw
    }

    /// The view of the library.
    pub fn get_view(&self) -> (r: &MusicDbView<'a>)
        ensures
            *r == self.contents(),
    {
        &self.view
    }

    /// Every album of the library, by id.
    pub fn albums(&self) -> (r: &HashMap<u64, Album<'a>>)
        ensures
            *r == self.contents().albums,
    {
        &self.view.albums
    }

    /// Every artist of the library, by id.
    pub fn artists(&self) -> (r: &HashMap<u64, Artist<'a>>)
        ensures
            *r == self.contents().artists,
    {
        &self.view.artists
    }

    /// Every track of the library, by id.
    pub fn tracks(&self) -> (r: &HashMap<u64, Track<'a>>)
        ensures
            *r == self.contents().tracks,
    {
        &self.view.tracks
    }

    /// Every collection of tracks of the library, such as playlists.
    pub fn collections(&self) -> (r: &Vec<Collection<'a>>)
        ensures
            *r == self.contents().collections,
    {
        &self.view.collections
    }

    /// The accounts of the library, where it has them.
    pub fn accounts(&self) -> (r: Option<&Vec<Account<'a>>>)
        ensures
            match self.contents().accounts {
                Some(a) => r matches Some(b) && *b == a,
                None => r is None,
            },
    {
        match &self.view.accounts {
            Some(a) => Some(a),
            None => None,
        }
    }
}

} // verus!

