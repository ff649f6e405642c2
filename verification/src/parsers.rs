//! Parsers for the command-line value syntaxes: `KID:KEY;...` decryption
//! keys and `k=v&k=v` query parameters.
use vstd::prelude::*;
use vstd::string::*;
use crate::text::{
    all_hex, find_char, lemma_find_char, lower_nodash, lower_nodash_exec, split_char, split_parts,
    str_all_hex,
};

verus! {

/// How downloaded segments are to be decrypted: not at all, or by a
/// KID-to-key table handed to an MP4 decrypter.
#[derive(Clone, Debug)]
pub enum Decrypter {
    Mp4Decrypt(Vec<(String, String)>),
    NoKeys,
}

/// The key pairs a piece list yields: a piece without `:` is skipped, any
/// other piece must be a well-formed `KID:KEY` pair — both sides 32
/// hexadecimal digits once lowercased and dash-stripped — or the whole
/// parse fails.
pub open spec fn keys_of(pieces: Seq<Seq<char>>) -> Option<Seq<(Seq<char>, Seq<char>)>>
    decreases pieces.len(),
{
    if pieces.len() == 0 {
        Some(Seq::empty())
    } else {
        match keys_of(pieces.drop_last()) {
            None => None,
            Some(rest) => {
                let p = pieces.last();
                let f = find_char(p, ':');
                if f == -1 {
                    Some(rest)
                } else {
                    let kid = lower_nodash(p.take(f));
                    let key = lower_nodash(p.skip(f + 1));
                    if kid.len() == 32 && all_hex(kid) && key.len() == 32 && all_hex(key) {
                        Some(rest.push((kid, key)))
                    } else {
                        None
                    }
                }
            },
        }
    }
}

/// The query pairs a piece list yields: each piece holding `=` contributes
/// the text before its first `=` as key and the rest as value; pieces
/// without `=` are skipped.
pub open spec fn queries_of(pieces: Seq<Seq<char>>) -> Seq<(Seq<char>, Seq<char>)>
    decreases pieces.len(),
{
    if pieces.len() == 0 {
        Seq::empty()
    } else {
        let rest = queries_of(pieces.drop_last());
        let p = pieces.last();
        let f = find_char(p, '=');
        if f == -1 {
            rest
        } else {
            rest.push((p.take(f), p.skip(f + 1)))
        }
    }
}

/// Parses a `KID:KEY;...` table of decryption keys: the empty string means
/// no decryption, a malformed pair fails the whole parse, and both halves
/// of every pair are canonicalized to lowercase dash-free hexadecimal.
#[verifier::loop_isolation(false)]
pub fn keys_parser(s: &str) -> (r: Result<Decrypter, String>)
    ensures
        s@.len() == 0 ==> r == Ok::<Decrypter, String>(Decrypter::NoKeys),
        s@.len() > 0 ==> match keys_of(split_parts(s@, ';')) {
            Some(ps) => {
                &&& r is Ok
                &&& r.unwrap() is Mp4Decrypt
                &&& r.unwrap()->Mp4Decrypt_0@.map_values(|p: (String, String)| (p.0@, p.1@)) == ps
            },
            None => r is Err && r.unwrap_err()@ == "invalid kid key format used."@,
        },
{
    if s.unicode_len() == 0 {
        return Ok(Decrypter::NoKeys);
    }
    let pieces = split_char(s, ';');
    let ghost piece_views = pieces@.map_values(|x: String| x@);
    let n = pieces.len();
    let mut pairs: Vec<(String, String)> = Vec::new();
    let mut i: usize = 0;
    while i < n
        invariant
            n == pieces@.len(),
            piece_views == pieces@.map_values(|x: String| x@),
            i <= n,
            keys_of(piece_views.take(i as int)) == Some(
                pairs@.map_values(|p: (String, String)| (p.0@, p.1@)),
            ),
        decreases n - i,
    {
        let piece = pieces[i].as_str();
        proof {
            assert(piece_views.take(i + 1).drop_last() =~= piece_views.take(i as int));
            assert(piece_views.take(i + 1).last() == piece@);
            lemma_find_char(piece@, ':');
        }
        match crate::text::find_char_exec(piece, ':') {
            None => (),
            Some(f) => {
                let m = piece.unicode_len();
                let kid_raw = piece.substring_char(0, f);
                let key_raw = piece.substring_char(f + 1, m);
                proof {
                    assert(kid_raw@ =~= piece@.take(f as int));
                    assert(key_raw@ =~= piece@.skip(f + 1));
                }
                let kid = lower_nodash_exec(kid_raw);
                let key = lower_nodash_exec(key_raw);
                let kid_ok = kid.as_str().unicode_len() == 32 && str_all_hex(kid.as_str());
                let key_ok = key.as_str().unicode_len() == 32 && str_all_hex(key.as_str());
                if kid_ok && key_ok {
                    pairs.push((kid, key));
                } else {
                    proof {
                        assert(keys_of(piece_views.take(i + 1)) is None);
                        lemma_keys_of_none_prefix(piece_views, i + 1);
                    }
                    return Err("invalid kid key format used.".to_owned());
                }
            },
        }
        proof {
            assert(pairs@.map_values(|p: (String, String)| (p.0@, p.1@)) =~= keys_of(
                piece_views.take(i + 1),
            ).unwrap());
        }
        i = i + 1;
    }
    proof {
        assert(piece_views.take(n as int) =~= piece_views);
    }
    Ok(Decrypter::Mp4Decrypt(pairs))
}

/// A failed prefix fails the whole piece list.
proof fn lemma_keys_of_none_prefix(pieces: Seq<Seq<char>>, k: int)
    requires
        0 <= k <= pieces.len(),
        keys_of(pieces.take(k)) is None,
    ensures
        keys_of(pieces) is None,
    decreases pieces.len() - k,
{
    if k < pieces.len() {
        assert(pieces.take(k + 1).drop_last() =~= pieces.take(k));
        lemma_keys_of_none_prefix(pieces, k + 1);
    } else {
        assert(pieces.take(k) =~= pieces);
    }
}

/// Parses `k=v&k=v` query parameters: each `&`-separated piece holding `=`
/// contributes one pair, split at the first `=`; everything else is
/// skipped. Never fails.
#[verifier::loop_isolation(false)]
pub fn query_parser(s: &str) -> (r: Vec<(String, String)>)
    ensures
        r@.map_values(|p: (String, String)| (p.0@, p.1@)) == queries_of(split_parts(s@, '&')),
{
    let pieces = split_char(s, '&');
    let ghost piece_views = pieces@.map_values(|x: String| x@);
    let n = pieces.len();
    let mut pairs: Vec<(String, String)> = Vec::new();
    let mut i: usize = 0;
    while i < n
        invariant
            n == pieces@.len(),
            piece_views == pieces@.map_values(|x: String| x@),
            i <= n,
            pairs@.map_values(|p: (String, String)| (p.0@, p.1@)) == queries_of(
                piece_views.take(i as int),
            ),
        decreases n - i,
    {
        let piece = pieces[i].as_str();
        proof {
            assert(piece_views.take(i + 1).drop_last() =~= piece_views.take(i as int));
            assert(piece_views.take(i + 1).last() == piece@);
        }
        match crate::text::find_char_exec(piece, '=') {
            None => (),
            Some(f) => {
                proof {
                    lemma_find_char(piece@, '=');
                }
                let m = piece.unicode_len();
                let key = piece.substring_char(0, f).to_owned();
                let value = piece.substring_char(f + 1, m).to_owned();
                proof {
                    assert(key@ =~= piece@.take(f as int));
                    assert(value@ =~= piece@.skip(f + 1));
                }
                pairs.push((key, value));
            },
        }
        proof {
            assert(pairs@.map_values(|p: (String, String)| (p.0@, p.1@)) =~= queries_of(
                piece_views.take(i + 1),
            ));
        }
        i = i + 1;
    }
    proof {
        assert(piece_views.take(n as int) =~= piece_views);
    }
    pairs
}

} // verus!
