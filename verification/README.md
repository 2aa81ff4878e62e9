# am_osx_status

The verified core of a macOS Apple Music state observer and dispatcher: the parts that
read, check and shape data, written in Verus and proved against their contracts.

## Layout

- `src/musicdb/`: the Apple Music library file. `packed` decrypts and inflates it, `chunk`
  is a cursor over the decoded bytes, `boma` and `chunks` read the records and entities
  (albums, artists, accounts, tracks, collections), and `MusicDbView` reads the whole view.
  Each reader states exactly when it succeeds and where it ends, as spec functions of the
  bytes (`boma_fits`, `entity_fits`, `list_fits`, `view_fits`).
- `src/plist.rs` and `src/xml/`: the embedded property lists and the small XML reader
  under them. What the XML reader reads from some text is stated as a tree (`read_node`,
  `XmlTree`); the value of a property list is stated on that tree (`tree_value`), so that
  `plist::parse` is fixed by its text (`plist_outcome`).
- `src/unaligned_u16/`: UTF-16 text in byte slices of either byte order, with the laws that
  encoding then decoding gives a text back and that the predicted byte size is two bytes
  per UTF-16 unit.
- `src/mzstatic/`: Apple's image addresses: pools, accelerator directives, image details,
  and their text forms.
- `src/lastfm/`, `src/brainz/`, `src/itunes_api.rs`: request parameters, signatures, error
  codes and responses of Last.fm, MusicBrainz and ListenBrainz, and the iTunes search API.
- `src/osascript/`, `src/osa_apple_music.rs`: balancing of AppleScript and JavaScript
  sources, and the player state the application reports.
- `src/text.rs`, `src/num.rs`: byte and number helpers shared by the rest.

Calls into outside crates (MD5, AES, zlib, base64, UUID) stand behind small trusted
wrappers whose contracts say what those crates document.

`tests/` runs the library on concrete inputs.
