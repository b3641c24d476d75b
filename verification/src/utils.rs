//! Paths of episodes on disk, and the time a request took.
//!
//! An episode lives in `{root}/{date}/{flow}/{number}/`. The functions here
//! write such paths and read the episode key back from one.

use vstd::prelude::*;

use crate::errors::ErrorKind;
use crate::structs::{datestamp_of, flow_type_of, Datestamp, EpisodeKey, FlowType};
use crate::text::{
    chars_of, decimal_text, number_of, parse_bounded, push_char, push_decimal, push_text, split,
    split_on, views,
};

verus! {

// ---------------------------------------------------------------------------
// Reading a key from a path
// ---------------------------------------------------------------------------

/// Whether a piece between two separators counts as a component of a path:
/// it is neither empty nor the single dot that stands for "this directory".
pub open spec fn meaningful(piece: Seq<char>) -> bool {
    piece.len() > 0 && piece != seq!['.']
}

/// `meaningful` as a predicate value.
pub open spec fn is_meaningful() -> spec_fn(Seq<char>) -> bool {
    |piece: Seq<char>| meaningful(piece)
}

/// The components of a path: its pieces between `/`, without the empty ones
/// and without single dots.
pub open spec fn components(path: Seq<char>) -> Seq<Seq<char>> {
    split_on(path, '/').filter(is_meaningful())
}

/// The key of the episode that a path points into. Counting components from
/// the end of the path, the last one is a file inside the episode's
/// directory and is not looked at; the one before it is the number, then
/// comes the flow type, then the date. `None` when the path has fewer than
/// four components or one of the three does not read as what it should be.
pub open spec fn decode_path(path: Seq<char>) -> Option<EpisodeKey> {
    let parts = components(path);
    let n = parts.len() as int;
    if n < 4 {
        None
    } else {
        match (datestamp_of(parts[n - 4]), flow_type_of(parts[n - 3]), number_of(parts[n - 2])) {
            (Some(date), Some(flow), Some(num)) => Some((date, flow, num)),
            _ => None,
        }
    }
}

/// Reads the key of an episode from the path of a file in its directory,
/// such as `data/20230101/biocam/4/surface.png`. Fails with `Format` when
/// the path has fewer than four components or when the date, the flow type
/// or the number does not read as one.
pub fn extract_path(path: &str) -> (r: Result<EpisodeKey, ErrorKind>)
    ensures
        r == match decode_path(path@) {
            Some(key) => Ok::<EpisodeKey, ErrorKind>(key),
            None => Err::<EpisodeKey, ErrorKind>(ErrorKind::Format),
        },
{
    let cs: Vec<char> = chars_of(path);
    let pieces: Vec<Vec<char>> = split(&cs, '/');
    let ghost all = views(pieces@);
    // The positions in `pieces` of the components, in order.
    let mut kept: Vec<usize> = Vec::new();
    let mut i: usize = 0;
    assert(all.take(0) =~= Seq::<Seq<char>>::empty());
    proof {
        all.take(0).lemma_filter_len(is_meaningful());
    }
    while i < pieces.len()
        invariant
            i <= pieces.len(),
            all == views(pieces@),
            forall|j: int| 0 <= j < kept.len() ==> (#[trigger] kept@[j]) < pieces.len(),
            Seq::new(kept.len() as nat, |j: int| all[kept@[j] as int]) == all.take(i as int).filter(
                is_meaningful(),
            ),
        decreases pieces.len() - i,
    {
        let piece: &Vec<char> = &pieces[i];
        let ghost before = all.take(i as int);
        let ghost kept_before = kept@;
        assert(all[i as int] == piece@);
        assert(all.take(i + 1) =~= before.push(piece@));
        proof {
            before.lemma_filter_push(piece@, is_meaningful());
        }
        let dot: bool = piece.len() == 1 && piece[0] == '.';
        assert(dot == (piece@ == seq!['.'])) by {
            if dot {
                assert(piece@ =~= seq!['.']);
            } else if piece@ == seq!['.'] {
                assert(piece@.len() == 1);
                assert(piece@[0] == '.');
            }
        }
        if piece.len() > 0 && !dot {
            kept.push(i);
            assert(Seq::new(kept.len() as nat, |j: int| all[kept@[j] as int]) =~= Seq::new(
                kept_before.len() as nat,
                |j: int| all[kept_before[j] as int],
            ).push(piece@));
        } else {
            assert(!meaningful(piece@));
        }
        i += 1;
    }
    assert(all.take(pieces.len() as int) =~= all);
    let ghost parts = components(path@);
    assert(parts == Seq::new(kept.len() as nat, |j: int| all[kept@[j] as int]));
    let n: usize = kept.len();
    if n < 4 {
        return Err(ErrorKind::Format);
    }
    let date_piece: &Vec<char> = &pieces[kept[n - 4]];
    let flow_piece: &Vec<char> = &pieces[kept[n - 3]];
    let num_piece: &Vec<char> = &pieces[kept[n - 2]];
    assert(date_piece@ == parts[n - 4]);
    assert(flow_piece@ == parts[n - 3]);
    assert(num_piece@ == parts[n - 2]);
    let date: Datestamp = match parse_bounded(date_piece, u32::MAX) {
        Some(d) => Datestamp(d),
        None => {
            return Err(ErrorKind::Format);
        },
    };
    let flow: FlowType = match FlowType::from_chars(flow_piece) {
        Ok(f) => f,
        Err(_) => {
            return Err(ErrorKind::Format);
        },
    };
    let num: u32 = match parse_bounded(num_piece, u32::MAX) {
        Some(k) => k,
        None => {
            return Err(ErrorKind::Format);
        },
    };
    Ok((date, flow, num))
}

// ---------------------------------------------------------------------------
// Writing paths
// ---------------------------------------------------------------------------

/// The path of an episode's directory below a root: `{date}/{flow}/{number}`.
pub open spec fn encode_key(key: EpisodeKey) -> Seq<char> {
    key.0.text() + seq!['/'] + key.1.token() + seq!['/'] + decimal_text(key.2 as nat)
}

/// `root` extended by `rest`, with one `/` between them unless `root` is
/// empty or already ends with one.
pub open spec fn join_path(root: Seq<char>, rest: Seq<char>) -> Seq<char> {
    if root.len() == 0 || root.last() == '/' {
        root + rest
    } else {
        root + seq!['/'] + rest
    }
}

/// The path of the file `leaf` of an episode below `root`.
pub open spec fn file_path(root: Seq<char>, key: EpisodeKey, leaf: Seq<char>) -> Seq<char> {
    join_path(root, encode_key(key) + seq!['/'] + leaf)
}

/// The name of the session file of an episode: `{flow}.flow`.
pub open spec fn session_file_name(flow: FlowType) -> Seq<char> {
    flow.token() + ".flow"@
}

/// The path of an episode's directory below a root: `{date}/{flow}/{number}`.
pub fn episode_path(key: &EpisodeKey) -> (path: String)
    ensures
        path@ == encode_key(*key),
{
    let mut out: String = String::new();
    push_key(&mut out, key);
    assert(out@ =~= encode_key(*key));
    out
}

/// Appends `{date}/{flow}/{number}` to `out`.
fn push_key(out: &mut String, key: &EpisodeKey)
    ensures
        final(out)@ == old(out)@ + encode_key(*key),
{
    push_decimal(out, key.0.0 as u64);
    push_char(out, '/');
    push_text(out, key.1.as_str());
    push_char(out, '/');
    push_decimal(out, key.2 as u64);
    assert(final(out)@ =~= old(out)@ + encode_key(*key));
}

/// Appends `root` to `out`, and a `/` unless `root` is empty or ends with
/// one.
fn push_root(out: &mut String, root: &str)
    ensures
        final(out)@ == old(out)@ + join_path(root@, Seq::<char>::empty()),
{
    let cs: Vec<char> = chars_of(root);
    push_text(out, root);
    if cs.len() > 0 && cs[cs.len() - 1] != '/' {
        push_char(out, '/');
    }
    assert(final(out)@ =~= old(out)@ + join_path(root@, Seq::<char>::empty()));
}

/// The path of the file `leaf` of the episode `key` below `root`:
/// `{root}/{date}/{flow}/{number}/{leaf}`.
pub fn probe_path(root: &str, key: &EpisodeKey, leaf: &str) -> (path: String)
    ensures
        path@ == file_path(root@, *key, leaf@),
{
    let mut out: String = String::new();
    push_root(&mut out, root);
    push_key(&mut out, key);
    push_char(&mut out, '/');
    push_text(&mut out, leaf);
    assert(out@ =~= file_path(root@, *key, leaf@));
    out
}

/// The path of the image of the episode `key` below `root`.
pub fn image_path(root: &str, key: &EpisodeKey) -> (path: String)
    ensures
        path@ == file_path(root@, *key, "surface.png"@),
{
    probe_path(root, key, "surface.png")
}

/// The path of the session file of the episode `key` below `root`.
pub fn session_path(root: &str, key: &EpisodeKey) -> (path: String)
    ensures
        path@ == file_path(root@, *key, session_file_name(key.1)),
{
    let mut name: String = key.1.to_string();
    push_text(&mut name, ".flow");
    probe_path(root, key, name.as_str())
}

/// The pattern that matches the image of every episode below `root` that the
/// catalog lists. Only episodes recorded with the BioTac sensor are listed.
pub fn scan_pattern(root: &str) -> (pattern: String)
    ensures
        pattern@ == root@ + "/*/biocam/*/surface.png"@,
{
    let mut out: String = root.to_owned();
    push_text(&mut out, "/*/biocam/*/surface.png");
    out
}

// ---------------------------------------------------------------------------
// A key survives being written and read back
// ---------------------------------------------------------------------------

/// The three pieces of a written key are components, and none of them holds
/// a separator.
proof fn lemma_key_pieces(key: EpisodeKey)
    ensures
        meaningful(key.0.text()),
        meaningful(key.1.token()),
        meaningful(decimal_text(key.2 as nat)),
        !key.0.text().contains('/'),
        !key.1.token().contains('/'),
        !decimal_text(key.2 as nat).contains('/'),
        datestamp_of(key.0.text()) == Some(key.0),
        flow_type_of(key.1.token()) == Some(key.1),
        number_of(decimal_text(key.2 as nat)) == Some(key.2),
{
    let date = key.0.text();
    let token = key.1.token();
    let num = decimal_text(key.2 as nat);
    crate::text::lemma_decimal_text_value(key.0.0 as nat);
    crate::text::lemma_decimal_text_value(key.2 as nat);
    crate::text::lemma_decimal_text_lacks(key.0.0 as nat, '/');
    crate::text::lemma_decimal_text_lacks(key.2 as nat, '/');
    crate::text::lemma_parse_decimal_text(key.0.0 as nat, u32::MAX as nat);
    crate::text::lemma_parse_decimal_text(key.2 as nat, u32::MAX as nat);
    crate::structs::lemma_flow_token_letters(key.1);
    crate::structs::lemma_flow_token_round_trip(key.1, token);
    assert(crate::text::is_digit(date[0]));
    assert(crate::text::is_digit(num[0]));
    assert(date != seq!['.']) by {
        if date == seq!['.'] {
            assert(date[0] == '.');
        }
    }
    assert(num != seq!['.']) by {
        if num == seq!['.'] {
            assert(num[0] == '.');
        }
    }
    assert(token != seq!['.']) by {
        if token == seq!['.'] {
            assert(token.len() == 1);
        }
    }
    assert(!token.contains('/')) by {
        if token.contains('/') {
            let i = choose|i: int| 0 <= i < token.len() && token[i] == '/';
            assert('a' <= token[i]);
        }
    }
}

/// The components of a single piece: the piece itself if it is a component,
/// nothing otherwise.
proof fn lemma_components_of_piece(piece: Seq<char>)
    requires
        !piece.contains('/'),
    ensures
        components(piece) == if meaningful(piece) {
            seq![piece]
        } else {
            Seq::<Seq<char>>::empty()
        },
{
    crate::text::lemma_split_without_separator(piece, '/');
    let none = Seq::<Seq<char>>::empty();
    assert(seq![piece] =~= none.push(piece));
    none.lemma_filter_len(is_meaningful());
    assert(none.filter(is_meaningful()) =~= none);
    none.lemma_filter_push(piece, is_meaningful());
}

/// The components of two paths joined by a separator are those of the first
/// followed by those of the second.
proof fn lemma_components_joined(a: Seq<char>, b: Seq<char>)
    ensures
        components(a + seq!['/'] + b) == components(a) + components(b),
{
    crate::text::lemma_split_joined(a, b, '/');
    Seq::filter_distributes_over_add(split_on(a, '/'), split_on(b, '/'), is_meaningful());
}

/// The components of a path that ends with a separator are those of the
/// path before the separator.
proof fn lemma_components_trailing_separator(a: Seq<char>)
    ensures
        components(a + seq!['/']) == components(a),
{
    let none = Seq::<char>::empty();
    lemma_components_joined(a, none);
    assert(a + seq!['/'] + none =~= a + seq!['/']);
    assert(!none.contains('/'));
    lemma_components_of_piece(none);
    assert(components(a) + Seq::<Seq<char>>::empty() =~= components(a));
}

/// The components of the path of a file of an episode, written without a
/// root: the date, the flow type, the number and the file.
proof fn lemma_components_of_file(key: EpisodeKey, leaf: Seq<char>)
    requires
        meaningful(leaf),
        !leaf.contains('/'),
    ensures
        components(encode_key(key) + seq!['/'] + leaf) == seq![
            key.0.text(),
            key.1.token(),
            decimal_text(key.2 as nat),
            leaf,
        ],
{
    let date = key.0.text();
    let token = key.1.token();
    let num = decimal_text(key.2 as nat);
    lemma_key_pieces(key);
    lemma_components_of_piece(date);
    lemma_components_of_piece(token);
    lemma_components_of_piece(num);
    lemma_components_of_piece(leaf);
    lemma_components_joined(date, token);
    lemma_components_joined(date + seq!['/'] + token, num);
    lemma_components_joined(date + seq!['/'] + token + seq!['/'] + num, leaf);
    assert(seq![date] + seq![token] + seq![num] + seq![leaf] =~= seq![date, token, num, leaf]);
}

/// The key read from the path of a file of an episode is the key of that
/// episode, whatever root the path starts with and whatever the file is
/// called: `extract_path` undoes `probe_path`. The file name has to be one
/// component: not empty, not a single dot, and without a separator.
pub proof fn lemma_path_round_trip(root: Seq<char>, key: EpisodeKey, leaf: Seq<char>)
    requires
        meaningful(leaf),
        !leaf.contains('/'),
    ensures
        decode_path(file_path(root, key, leaf)) == Some(key),
        decode_path(encode_key(key) + seq!['/'] + leaf) == Some(key),
{
    let tail = encode_key(key) + seq!['/'] + leaf;
    let four = seq![key.0.text(), key.1.token(), decimal_text(key.2 as nat), leaf];
    lemma_components_of_file(key, leaf);
    lemma_key_pieces(key);
    assert(components(tail) == four);
    let path = file_path(root, key, leaf);
    let head: Seq<Seq<char>> = if root.len() == 0 {
        Seq::empty()
    } else {
        components(root)
    };
    assert(components(path) == head + four) by {
        if root.len() == 0 {
            assert(path =~= tail);
            assert(head + four =~= four);
        } else if root.last() == '/' {
            let stem = root.drop_last();
            assert(root =~= stem + seq!['/']);
            assert(path =~= stem + seq!['/'] + tail);
            lemma_components_joined(stem, tail);
            lemma_components_trailing_separator(stem);
        } else {
            lemma_components_joined(root, tail);
        }
    }
    let parts = components(path);
    let n = parts.len() as int;
    assert(n == head.len() + 4);
    assert(parts[n - 4] == four[0]);
    assert(parts[n - 3] == four[1]);
    assert(parts[n - 2] == four[2]);
}

// ---------------------------------------------------------------------------
// Elapsed time
// ---------------------------------------------------------------------------

/// How a span of time is shown: the whole seconds, a dot, the whole
/// milliseconds of the started second without leading zeros, and `s`.
pub open spec fn elapsed_text(secs: u64, subsec_nanos: u32) -> Seq<char> {
    decimal_text(secs as nat) + seq!['.'] + decimal_text((subsec_nanos / 1_000_000) as nat) + seq![
        's',
    ]
}

/// Shows a span of time given as whole seconds and the nanoseconds of the
/// started second, as in `12.345s`.
pub fn format_elapsed(secs: u64, subsec_nanos: u32) -> (shown: String)
    ensures
        shown@ == elapsed_text(secs, subsec_nanos),
{
    let mut out: String = String::new();
    push_decimal(&mut out, secs);
    push_char(&mut out, '.');
    push_decimal(&mut out, (subsec_nanos / 1_000_000) as u64);
    push_char(&mut out, 's');
    assert(out@ =~= elapsed_text(secs, subsec_nanos));
    out
}

/// A reading of the system clock.
#[verifier::external_type_specification]
#[verifier::external_body]
pub struct ExSystemTime(std::time::SystemTime);

/// What `SystemTime::elapsed` fails with.
#[verifier::external_type_specification]
#[verifier::external_body]
pub struct ExSystemTimeError(std::time::SystemTimeError);

/// `SystemTime::elapsed` reads the clock and gives the time that has passed
/// since `start`, or an error when the clock now reads earlier than `start`.
/// Nothing is claimed of the result.
pub assume_specification[ std::time::SystemTime::elapsed ](start: &std::time::SystemTime) -> (r:
    Result<std::time::Duration, std::time::SystemTimeError>)
;

/// `Duration::as_secs` gives the whole seconds of a span of time. Nothing is
/// claimed of the result.
pub assume_specification[ std::time::Duration::as_secs ](span: &std::time::Duration) -> (secs: u64)
;

/// `Duration::subsec_nanos` gives the part of a span of time beyond its whole
/// seconds, in nanoseconds: always less than one second.
pub assume_specification[ std::time::Duration::subsec_nanos ](span: &std::time::Duration) -> (nanos:
    u32)
    ensures
        nanos < 1_000_000_000,
;

/// Shows the time that has passed since `start`, as in `12.345s`. `None`
/// when the clock now reads earlier than `start`.
pub fn elapsed(start: std::time::SystemTime) -> (shown: Option<String>)
    ensures
        shown matches Some(text) ==> exists|secs: u64, nanos: u32|
            nanos < 1_000_000_000 && text@ == #[trigger] elapsed_text(secs, nanos),
{
    match start.elapsed() {
        Ok(span) => Some(format_elapsed(span.as_secs(), span.subsec_nanos())),
        Err(_) => None,
    }
}

} // verus!
