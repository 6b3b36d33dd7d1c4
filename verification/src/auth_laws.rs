//! What holds of keys files and key verification as a whole.

use crate::auth;
use crate::auth::{KeysError, LineContent, LineFault};
use crate::cost;
use crate::text;
use crate::text_laws;
use vstd::prelude::*;

verus! {

/// A first separator splits a text into what was put on its two sides.
proof fn lemma_split_once_joined(left: Seq<char>, sep: char, right: Seq<char>)
    requires
        !left.contains(sep),
    ensures
        text::split_once(left.push(sep) + right, sep) == Some((left, right)),
{
    let whole = left.push(sep) + right;
    assert forall|j: int| 0 <= j < left.len() implies whole[j] != sep by {
        assert(left.contains(left[j]));
    }
    assert(text::is_first(whole, sep, left.len() as int));
    let i = choose|i: int| text::is_first(whole, sep, i);
    text::lemma_first_unique(whole, sep, i, left.len() as int);
    assert(whole.take(i) =~= left);
    assert(whole.skip(i + 1) =~= right);
}

/// A line `keyid:hash` adds its entry, after those of the lines before it. The id may not hold a
/// colon, and white space may not stand at the ends of the line.
pub proof fn law_line_adds_its_entry(lines: Seq<Seq<char>>, key_id: Seq<char>, hash: Seq<char>)
    requires
        !key_id.contains(':'),
        auth::starts_with(hash, "$y$"@),
        text::trim(key_id.push(':') + hash) == key_id.push(':') + hash,
    ensures
        match auth::keys_of_lines(lines) {
            Ok(entries) => auth::keys_of_lines(lines.push(key_id.push(':') + hash)) == Ok::<
                Seq<(Seq<char>, Seq<char>)>,
                LineFault,
            >(entries.push((key_id, hash))),
            Err(fault) => auth::keys_of_lines(lines.push(key_id.push(':') + hash)) == Err::<
                Seq<(Seq<char>, Seq<char>)>,
                LineFault,
            >(fault),
        },
{
    let line = key_id.push(':') + hash;
    lemma_split_once_joined(key_id, ':', hash);
    assert(lines.push(line).drop_last() =~= lines);
}

/// A line of white space changes nothing about the keys that a file holds.
pub proof fn law_blank_line_adds_nothing(
    before: Seq<Seq<char>>,
    blank: Seq<char>,
    after: Seq<Seq<char>>,
)
    requires
        text::trim(blank).len() == 0,
    ensures
        ({
            let with_blank = auth::keys_of_lines(before.push(blank) + after);
            let without_blank = auth::keys_of_lines(before + after);
            &&& with_blank is Ok <==> without_blank is Ok
            &&& without_blank is Ok ==> with_blank == without_blank
        }),
    decreases after.len(),
{
    if after.len() == 0 {
        assert(before.push(blank) + after =~= before.push(blank));
        assert(before.push(blank).drop_last() =~= before);
        assert(before + after =~= before);
    } else {
        assert((before.push(blank) + after).drop_last() =~= before.push(blank)
            + after.drop_last());
        assert((before + after).drop_last() =~= before + after.drop_last());
        law_blank_line_adds_nothing(before, blank, after.drop_last());
    }
}

/// A file with one line that says nothing usable is refused, wherever the line stands.
pub proof fn law_one_bad_line_refuses_the_file(lines: Seq<Seq<char>>, i: int)
    requires
        0 <= i < lines.len(),
        auth::line_content(lines[i]) is NoColon || auth::line_content(lines[i]) is NotYescrypt,
    ensures
        auth::keys_of_lines(lines) is Err,
    decreases lines.len(),
{
    if i < lines.len() - 1 {
        law_one_bad_line_refuses_the_file(lines.drop_last(), i);
    }
}

/// The full key `keyid.secret` is accepted exactly where the secret is the one behind a hash that
/// stands under the id, whichever of several it is. The id may not hold a dot.
pub proof fn law_key_accepted_by_any_hash_of_its_id(
    entries: Seq<(Seq<char>, Seq<char>)>,
    key_id: Seq<char>,
    secret: Seq<char>,
)
    requires
        !key_id.contains('.'),
    ensures
        auth::key_accepted(entries, key_id.push('.') + secret) <==> exists|i: int|
            0 <= i < entries.len() && (#[trigger] entries[i]).0 == key_id && auth::hash_matches(
                secret,
                entries[i].1,
            ),
{
    lemma_split_once_joined(key_id, '.', secret);
}

/// A hash that yescrypt made for a secret, stored under an id, admits `keyid.secret`.
pub proof fn law_stored_secret_is_accepted(
    entries: Seq<(Seq<char>, Seq<char>)>,
    key_id: Seq<char>,
    secret: Seq<char>,
    hash: Seq<char>,
)
    requires
        !key_id.contains('.'),
        cost::cost_bounded(hash),
        auth::yescrypt_verifies(secret, hash),
    ensures
        auth::key_accepted(entries.push((key_id, hash)), key_id.push('.') + secret),
{
    lemma_split_once_joined(key_id, '.', secret);
    let all = entries.push((key_id, hash));
    assert(all[entries.len() as int].0 == key_id);
}

/// Appending a line `keyid:hash` to a keys file, the last line of which is ended, makes the file
/// accept `keyid.secret` for the secret behind the hash, and it accepts every key that it accepted
/// before.
pub proof fn law_appended_line_admits_its_key(
    content: Seq<char>,
    key_id: Seq<char>,
    hash: Seq<char>,
    secret: Seq<char>,
    other: Seq<char>,
)
    requires
        content.len() == 0 || content.last() == '\n',
        auth::keys_of_content(content) is Ok,
        !key_id.contains(':') && !key_id.contains('.') && !key_id.contains('\n'),
        auth::starts_with(hash, "$y$"@) && !hash.contains('\n'),
        text::trim(key_id.push(':') + hash) == key_id.push(':') + hash,
        auth::hash_matches(secret, hash),
    ensures
        auth::keys_of_content((content + key_id.push(':') + hash).push('\n')) matches Ok(entries)
            && {
            &&& auth::key_accepted(entries, key_id.push('.') + secret)
            &&& auth::key_accepted(auth::keys_of_content(content)->Ok_0, other)
                ==> auth::key_accepted(entries, other)
        },
{
    let line = key_id.push(':') + hash;
    let none = Seq::<char>::empty();
    let before = text::split(content, '\n');
    let after = text::split((content + line).push('\n'), '\n');
    assert(content + key_id.push(':') + hash =~= content + line);
    assert(!line.contains('\n')) by {
        assert forall|i: int| 0 <= i < line.len() implies line[i] != '\n' by {
            if i < key_id.len() {
                assert(key_id.contains(key_id[i]));
            } else if i > key_id.len() {
                assert(hash.contains(hash[i - key_id.len() - 1]));
            }
        }
    }
    if content.len() == 0 {
        assert(content =~= none);
        assert(before =~= seq![none]);
    }
    text::lemma_split_nonempty(content, '\n');
    text::lemma_split_extend(content, line, '\n');
    text::lemma_split_complete(content + line, '\n');
    assert(before.last() == none);
    assert(none + line =~= line);
    assert(after.drop_last() =~= before.drop_last().push(line));
    assert(auth::line_content(none) == LineContent::Blank);
    let entries = auth::keys_of_content(content)->Ok_0;
    assert(auth::keys_of_lines(before.drop_last()) == auth::keys_of_lines(before));
    law_line_adds_its_entry(before.drop_last(), key_id, hash);
    assert(after.last() == none);
    law_stored_secret_is_accepted(entries, key_id, secret, hash);
    law_entry_concerns_its_id_only(entries, (key_id, hash), other);
}

/// An entry takes no access away, and gives none to keys with another id.
pub proof fn law_entry_concerns_its_id_only(
    entries: Seq<(Seq<char>, Seq<char>)>,
    entry: (Seq<char>, Seq<char>),
    key: Seq<char>,
)
    ensures
        auth::key_accepted(entries, key) ==> auth::key_accepted(entries.push(entry), key),
        (text::split_once(key, '.') matches Some((key_id, _)) ==> key_id != entry.0) ==> (
        auth::key_accepted(entries.push(entry), key) == auth::key_accepted(entries, key)),
{
    let all = entries.push(entry);
    if let Some((key_id, secret)) = text::split_once(key, '.') {
        if auth::key_accepted(entries, key) {
            let i = choose|i: int|
                0 <= i < entries.len() && (#[trigger] entries[i]).0 == key_id && auth::hash_matches(
                    secret,
                    entries[i].1,
                );
            assert(all[i] == entries[i]);
        }
        if auth::key_accepted(all, key) && key_id != entry.0 {
            let i = choose|i: int|
                0 <= i < all.len() && (#[trigger] all[i]).0 == key_id && auth::hash_matches(
                    secret,
                    all[i].1,
                );
            assert(all[i] == entries[i]);
        }
    }
}

/// Whatever key is presented, at least one verification is made. A key that nothing is stored for
/// costs exactly one, that of the dummy, and is refused; a wrong secret costs one for each hash
/// under its id. So the cost does not tell an unknown id from a known one that has one hash.
pub proof fn law_every_key_costs_a_verification(
    entries: Seq<(Seq<char>, Seq<char>)>,
    dummy_hash: Seq<char>,
    key: Seq<char>,
)
    ensures
        auth::work_for(entries, dummy_hash, key).len() >= 1,
        match text::split_once(key, '.') {
            Some((key_id, _)) => {
                let stored = auth::hashes_under(entries, key_id).len();
                &&& stored == 0 ==> auth::work_for(entries, dummy_hash, key).len() == 1
                    && !auth::key_accepted(entries, key)
                &&& stored > 0 && !auth::key_accepted(entries, key) ==> auth::work_for(
                    entries,
                    dummy_hash,
                    key,
                ).len() == stored
                &&& stored > 0 ==> auth::work_for(entries, dummy_hash, key).len() <= stored
            },
            None => auth::work_for(entries, dummy_hash, key).len() == 1 && !auth::key_accepted(
                entries,
                key,
            ),
        },
{
    lemma_outcomes("it probably is"@, seq![dummy_hash]);
    reveal_with_fuel(auth::outcomes, 2);
    assert(seq![dummy_hash].drop_first().len() == 0);
    if let Some((key_id, secret)) = text::split_once(key, '.') {
        let hashes = auth::hashes_under(entries, key_id);
        lemma_outcomes(secret, hashes);
        if hashes.len() == 0 {
            assert forall|i: int| 0 <= i < entries.len() implies (#[trigger] entries[i]).0
                != key_id by {
                lemma_nothing_under(entries, key_id, i);
            }
        } else if !auth::key_accepted(entries, key) {
            assert forall|j: int| 0 <= j < hashes.len() implies !auth::hash_matches(
                secret,
                #[trigger] hashes[j],
            ) by {
                assert(hashes.contains(hashes[j]));
                auth::lemma_hashes_under(entries, key_id, hashes[j]);
                let i = choose|i: int| 0 <= i < entries.len() && entries[i] == (key_id, hashes[j]);
                assert(entries[i].0 == key_id);
            }
        }
    }
}

/// At least one hash is verified where there is one, and all of them where none accepts.
proof fn lemma_outcomes(secret: Seq<char>, hashes: Seq<Seq<char>>)
    ensures
        hashes.len() > 0 ==> auth::outcomes(secret, hashes).len() >= 1,
        auth::outcomes(secret, hashes).len() <= hashes.len(),
        (forall|j: int| 0 <= j < hashes.len() ==> !auth::hash_matches(secret, #[trigger] hashes[j]))
            ==> auth::outcomes(secret, hashes).len() == hashes.len(),
    decreases hashes.len(),
{
    if hashes.len() > 0 {
        let rest = hashes.drop_first();
        lemma_outcomes(secret, rest);
        if forall|j: int|
            0 <= j < hashes.len() ==> !auth::hash_matches(secret, #[trigger] hashes[j]) {
            assert forall|j: int| 0 <= j < rest.len() implies !auth::hash_matches(
                secret,
                #[trigger] rest[j],
            ) by {
                assert(rest[j] == hashes[j + 1]);
            }
        }
    }
}

proof fn lemma_nothing_under(entries: Seq<(Seq<char>, Seq<char>)>, key_id: Seq<char>, i: int)
    requires
        auth::hashes_under(entries, key_id).len() == 0,
        0 <= i < entries.len(),
    ensures
        entries[i].0 != key_id,
    decreases entries.len(),
{
    if i < entries.len() - 1 {
        lemma_nothing_under(entries.drop_last(), key_id, i);
    }
}

/// A key without a dot, or with an id that nothing is stored under, is never accepted.
pub proof fn law_unknown_key_is_refused(entries: Seq<(Seq<char>, Seq<char>)>, key: Seq<char>)
    requires
        !key.contains('.') || forall|i: int|
            0 <= i < entries.len() ==> Some((#[trigger] entries[i]).0) != (match text::split_once(
                key,
                '.',
            ) {
                Some((key_id, _)) => Some(key_id),
                None => None,
            }),
    ensures
        !auth::key_accepted(entries, key),
{
    if !key.contains('.') {
        assert forall|i: int| !text::is_first(key, '.', i) by {
            if text::is_first(key, '.', i) {
                assert(key.contains(key[i]));
            }
        }
    }
}

/// The text of a line with white space around it, or none.
pub open spec fn is_line_of(
    line: Seq<char>,
    left: Seq<char>,
    middle: Seq<char>,
    right: Seq<char>,
) -> bool {
    &&& line == left + middle + right
    &&& text_laws::all_white(left) && text_laws::all_white(right)
    &&& text_laws::no_white_ends(middle)
}

/// The next line of a keys file adds the entry that it writes, `keyid:hash`, whatever white space
/// stands around it: the id is all before the first colon, the hash all behind it, which begins
/// with `$y$`.
pub proof fn law_padded_line_adds_its_entry(
    lines: Seq<Seq<char>>,
    entries: Seq<(Seq<char>, Seq<char>)>,
    line: Seq<char>,
    left: Seq<char>,
    key_id: Seq<char>,
    hash: Seq<char>,
    right: Seq<char>,
)
    requires
        auth::keys_of_lines(lines) == Ok::<Seq<(Seq<char>, Seq<char>)>, LineFault>(entries),
        is_line_of(line, left, key_id.push(':') + hash, right),
        !key_id.contains(':'),
        hash.len() >= 3 && hash[0] == '$' && hash[1] == 'y' && hash[2] == '$',
    ensures
        auth::keys_of_lines(lines.push(line)) == Ok::<Seq<(Seq<char>, Seq<char>)>, LineFault>(
            entries.push((key_id, hash)),
        ),
{
    text_laws::law_trim_takes_white_ends_only(left, key_id.push(':') + hash, right);
    lemma_split_once_joined(key_id, ':', hash);
    assert(lines.push(line).drop_last() =~= lines);
    reveal_strlit("$y$");
    assert(hash.take(3) =~= "$y$"@);
}

/// The next line of a keys file stops the reading where it has no colon, or where what stands
/// behind the first one does not begin with `$y$`. The fault names the line, without the white
/// space around it, and its number, counted from one.
pub proof fn law_faulty_line_is_named(
    lines: Seq<Seq<char>>,
    line: Seq<char>,
    left: Seq<char>,
    middle: Seq<char>,
    right: Seq<char>,
    key_id: Seq<char>,
    hash: Seq<char>,
)
    requires
        auth::keys_of_lines(lines) is Ok,
        is_line_of(line, left, middle, right),
        middle.len() > 0,
    ensures
        !middle.contains(':') ==> auth::keys_of_lines(lines.push(line)) == Err::<
            Seq<(Seq<char>, Seq<char>)>,
            LineFault,
        >(LineFault { line: middle, line_num: lines.len() + 1, has_colon: false }),
        middle == key_id.push(':') + hash && !key_id.contains(':') && !(hash.len() >= 3 && hash[0]
            == '$' && hash[1] == 'y' && hash[2] == '$') ==> auth::keys_of_lines(lines.push(line))
            == Err::<Seq<(Seq<char>, Seq<char>)>, LineFault>(
            LineFault { line: middle, line_num: lines.len() + 1, has_colon: true },
        ),
{
    text_laws::law_trim_takes_white_ends_only(left, middle, right);
    assert(lines.push(line).drop_last() =~= lines);
    if !middle.contains(':') {
        text_laws::law_split_once_divides_at_the_first(middle, ':', middle);
    }
    if middle == key_id.push(':') + hash && !key_id.contains(':') {
        assert(middle[key_id.len() as int] == ':');
        lemma_split_once_joined(key_id, ':', hash);
        reveal_strlit("$y$");
        if auth::starts_with(hash, "$y$"@) {
            assert(hash.take(3)[0] == '$' && hash.take(3)[1] == 'y' && hash.take(3)[2] == '$');
        }
    }
}

/// A line of white space alone adds nothing, and no lines are no keys. The first fault stands,
/// whatever lines follow.
pub proof fn law_white_lines_and_first_fault(lines: Seq<Seq<char>>, line: Seq<char>)
    ensures
        auth::keys_of_lines(Seq::empty()) == Ok::<Seq<(Seq<char>, Seq<char>)>, LineFault>(
            Seq::empty(),
        ),
        text_laws::all_white(line) ==> auth::keys_of_lines(lines.push(line)) == auth::keys_of_lines(
            lines,
        ),
        auth::keys_of_lines(lines) is Err ==> auth::keys_of_lines(lines.push(line))
            == auth::keys_of_lines(lines),
{
    assert(lines.push(line).drop_last() =~= lines);
    if text_laws::all_white(line) {
        let none = Seq::<char>::empty();
        text_laws::law_trim_takes_white_ends_only(line, none, none);
        assert(line + none + none =~= line);
    }
}

/// The lines of a keys file are what stands between its newlines.
pub proof fn law_lines_of_a_keys_file(lines: Seq<Seq<char>>)
    requires
        lines.len() > 0,
        forall|i: int| 0 <= i < lines.len() ==> !(#[trigger] lines[i]).contains('\n'),
    ensures
        auth::keys_of_content(text_laws::joined(lines, '\n')) == auth::keys_of_lines(lines),
{
    text_laws::law_split_undoes_join(lines, '\n');
}

/// A file that could be read is accepted with the keys of its content, or for none; one that could
/// not be read is reported with its path and the reason. A line without a colon and a hash of
/// another kind are reported with the path and the line, the hash also with its number.
pub proof fn law_errors_name_what_is_wrong(
    error: KeysError,
    file_path: Seq<char>,
    file: Result<String, String>,
)
    ensures
        file is Err ==> auth::keys_of_file(file) is None,
        file matches Ok(content) ==> (match auth::keys_of_content(content@) {
            Ok(entries) => auth::keys_of_file(file) == Some(entries),
            Err(_) => auth::keys_of_file(file) is None,
        }),
        auth::reports_file(error, file_path, file) ==> (match (error, file) {
            (KeysError::Read { path, source }, Err(reason)) => path@ == file_path && source@
                == reason@,
            (KeysError::MalformedLine { path, line }, Ok(content)) => path@ == file_path && (
            auth::keys_of_content(content@) matches Err(fault) && line@ == fault.line
                && !fault.has_colon),
            (KeysError::InvalidHash { path, line, line_num, reason }, Ok(content)) => path@
                == file_path && (auth::keys_of_content(content@) matches Err(fault) && line@
                == fault.line && line_num == fault.line_num && fault.has_colon) && reason@
                == "not a valid yescrypt PHC string"@,
            _ => false,
        }),
{
}

/// The words of an error: where it was, and what was wrong there.
pub proof fn law_errors_in_words(error: KeysError)
    ensures
        match error {
            KeysError::Read { path, source } => error.in_words() == "failed to read keys file "@
                + path@ + ": "@ + source@,
            KeysError::MalformedLine { path, line } => error.in_words() == "malformed line in "@
                + path@ + " (no ':'): "@ + line@,
            KeysError::InvalidHash { path, line_num, reason, .. } => exists|digits: Seq<char>|
                #![trigger text_laws::read_back(digits)]
                {
                    &&& text_laws::read_back(digits) == line_num
                    &&& error.in_words() == "invalid hash in "@ + path@ + " line "@ + digits
                        + ": "@ + reason@
                },
        },
{
    if let KeysError::InvalidHash { path, line_num, reason, line } = error {
        text_laws::law_decimal_reads_back(line_num as nat);
        let digits = text::decimal(line_num as nat);
        assert(text_laws::read_back(digits) == line_num);
    }
}

/// The hashes under an id are those of the entries with that id, in their order: entries that stand
/// behind others add theirs behind, and an entry under another id adds none.
pub proof fn law_hashes_under_an_id(
    a: Seq<(Seq<char>, Seq<char>)>,
    b: Seq<(Seq<char>, Seq<char>)>,
    key_id: Seq<char>,
    other: Seq<char>,
    hash: Seq<char>,
)
    ensures
        auth::hashes_under(a + b, key_id) == auth::hashes_under(a, key_id) + auth::hashes_under(
            b,
            key_id,
        ),
        auth::hashes_under(seq![(key_id, hash)], key_id) == seq![hash],
        other != key_id ==> auth::hashes_under(seq![(other, hash)], key_id) == Seq::<
            Seq<char>,
        >::empty(),
    decreases b.len(),
{
    reveal_with_fuel(auth::hashes_under, 2);
    assert(seq![(key_id, hash)].drop_last().len() == 0);
    assert(seq![(other, hash)].drop_last().len() == 0);
    assert(auth::hashes_under(seq![(key_id, hash)], key_id) =~= seq![hash]);
    let whole = auth::hashes_under(a + b, key_id);
    if b.len() == 0 {
        assert(a + b =~= a);
        assert(auth::hashes_under(a, key_id) + auth::hashes_under(b, key_id) =~= whole);
    } else {
        assert((a + b).drop_last() =~= a + b.drop_last());
        assert((a + b).last() == b.last());
        law_hashes_under_an_id(a, b.drop_last(), key_id, other, hash);
        assert(whole =~= auth::hashes_under(a, key_id) + auth::hashes_under(b, key_id));
    }
}

/// Hashes are verified one after the other, from the first on, and each verification comes to what
/// its hash says of the secret; they end with the first that accepts it, or with the last.
pub proof fn law_hashes_are_verified_in_turn(secret: Seq<char>, hashes: Seq<Seq<char>>)
    ensures
        ({
            let made = auth::outcomes(secret, hashes);
            &&& made.len() <= hashes.len()
            &&& forall|i: int|
                0 <= i < made.len() ==> #[trigger] made[i] == auth::hash_matches(secret, hashes[i])
            &&& forall|i: int| 0 <= i < made.len() - 1 ==> !(#[trigger] made[i])
            &&& made.len() < hashes.len() ==> made.len() > 0 && made.last()
        }),
    decreases hashes.len(),
{
    if hashes.len() > 0 && !auth::hash_matches(secret, hashes[0]) {
        let rest = hashes.drop_first();
        let made = auth::outcomes(secret, hashes);
        let later = auth::outcomes(secret, rest);
        law_hashes_are_verified_in_turn(secret, rest);
        assert forall|i: int| 0 <= i < made.len() implies #[trigger] made[i] == auth::hash_matches(
            secret,
            hashes[i],
        ) by {
            if i > 0 {
                assert(made[i] == later[i - 1]);
                assert(rest[i - 1] == hashes[i]);
            }
        }
        assert forall|i: int| 0 <= i < made.len() - 1 implies !(#[trigger] made[i]) by {
            if i > 0 {
                assert(made[i] == later[i - 1]);
            }
        }
        if made.len() < hashes.len() {
            assert(made.last() == later.last());
        }
    }
}

/// What is verified for `keyid.secret` is the secret, against the hashes under the id. Where there
/// are none, and for a key without a dot, it is the dummy secret against the dummy hash.
pub proof fn law_what_is_verified(
    entries: Seq<(Seq<char>, Seq<char>)>,
    dummy_hash: Seq<char>,
    key_id: Seq<char>,
    secret: Seq<char>,
)
    requires
        !key_id.contains('.'),
    ensures
        auth::hashes_under(entries, key_id).len() > 0 ==> auth::work_for(
            entries,
            dummy_hash,
            key_id.push('.') + secret,
        ) == auth::outcomes(secret, auth::hashes_under(entries, key_id)),
        auth::hashes_under(entries, key_id).len() == 0 ==> auth::work_for(
            entries,
            dummy_hash,
            key_id.push('.') + secret,
        ) == seq![auth::hash_matches("it probably is"@, dummy_hash)],
        auth::work_for(entries, dummy_hash, key_id) == seq![
            auth::hash_matches("it probably is"@, dummy_hash),
        ],
{
    text_laws::law_split_once_divides_at_the_first(key_id, '.', secret);
    reveal_with_fuel(auth::outcomes, 2);
    let dummy = seq![dummy_hash];
    assert(dummy.drop_first().len() == 0);
    assert(auth::outcomes("it probably is"@, dummy) =~= seq![
        auth::hash_matches("it probably is"@, dummy_hash),
    ]);
}

/// Whether a hash accepts a secret is what yescrypt says of the two. Only a hash whose parameters,
/// behind the second `$`, ask for more memory than can be allocated accepts nothing: 128 `r` bytes
/// for each of `N` blocks, as much for each of `p` lanes, and 12 KiB for each lane where the
/// parameters begin with `j`.
pub proof fn law_hash_accepts_what_yescrypt_accepts(
    secret: Seq<char>,
    before: Seq<char>,
    scheme: Seq<char>,
    params: Seq<char>,
    rest: Seq<char>,
)
    requires
        !before.contains('$') && !scheme.contains('$') && !params.contains('$'),
    ensures
        ({
            let short = (before.push('$') + scheme).push('$') + params;
            let hash = short.push('$') + rest;
            let fits = match cost::yescrypt_params(params) {
                Some((n, r, p)) => {
                    &&& 128 * r * n <= isize::MAX
                    &&& 128 * r * p <= isize::MAX
                    &&& params.len() > 0 && params[0] == 'j' ==> 12288 * p <= isize::MAX
                },
                None => true,
            };
            &&& auth::hash_matches(secret, hash) <==> fits && auth::yescrypt_verifies(secret, hash)
            &&& auth::hash_matches(secret, short) <==> fits && auth::yescrypt_verifies(
                secret,
                short,
            )
        }),
{
    let short = (before.push('$') + scheme).push('$') + params;
    let hash = short.push('$') + rest;
    let behind = scheme.push('$') + params;
    let all_behind = scheme.push('$') + (params.push('$') + rest);
    assert(short =~= before.push('$') + behind);
    assert(hash =~= before.push('$') + all_behind);
    text_laws::law_split_once_divides_at_the_first(before, '$', behind);
    text_laws::law_split_once_divides_at_the_first(before, '$', all_behind);
    text_laws::law_split_once_divides_at_the_first(scheme, '$', params);
    text_laws::law_split_once_divides_at_the_first(scheme, '$', params.push('$') + rest);
    text_laws::law_split_once_divides_at_the_first(params, '$', rest);
}

/// A text with fewer than two `$` holds no parameters, and is verified as it is.
pub proof fn law_hash_without_parameters(secret: Seq<char>, before: Seq<char>, scheme: Seq<char>)
    requires
        !before.contains('$') && !scheme.contains('$'),
    ensures
        auth::hash_matches(secret, before) == auth::yescrypt_verifies(secret, before),
        auth::hash_matches(secret, before.push('$') + scheme) == auth::yescrypt_verifies(
            secret,
            before.push('$') + scheme,
        ),
{
    text_laws::law_split_once_divides_at_the_first(before, '$', scheme);
    text_laws::law_split_once_divides_at_the_first(scheme, '$', before);
}

} // verus!
