//! The keys that may trigger a route, and how a presented key is verified.

use crate::cost;
use crate::cost::is_cost_bounded;
use crate::text;
use crate::text::{chars_of, decimal_text, find_char, same_text, trim_range};
use vstd::prelude::*;
use vstd::slice::slice_subrange;
use yescrypt::{PasswordHasher, PasswordVerifier, Yescrypt};

verus! {

/// Whether yescrypt's verification accepts a password for a hash in crypt format.
pub uninterp spec fn yescrypt_verifies(password: Seq<char>, hash: Seq<char>) -> bool;

/// Whether a secret is the one behind a stored hash. A hash that asks for more memory than can be
/// allocated anywhere has none.
pub open spec fn hash_matches(secret: Seq<char>, hash: Seq<char>) -> bool {
    cost::cost_bounded(hash) && yescrypt_verifies(secret, hash)
}

/// `s` begins with `prefix`.
pub open spec fn starts_with(s: Seq<char>, prefix: Seq<char>) -> bool {
    s.len() >= prefix.len() && s.take(prefix.len() as int) == prefix
}

/// Calls `Yescrypt::verify_password` on a hash in crypt format, with the bytes of `password`:
/// whether it accepts, which depends on the two texts alone. It allocates the memory that the
/// parameters in the hash ask for, panics where its size is beyond what can be allocated, and ends
/// the process where the machine has not that much.
#[verifier::external_body]
fn verify_password(password: &str, hash: &str) -> (accepted: bool)
    requires
        cost::cost_bounded(hash@),
    ensures
        accepted == yescrypt_verifies(password@, hash@),
{
    Yescrypt::default().verify_password(password.as_bytes(), hash).is_ok()
}

/// Calls `Yescrypt::hash_password` with the default parameters, `N` of 4096, `r` of 32 and `p` of
/// one, and a salt drawn at random: a hash in crypt format that holds these parameters and that
/// verification accepts for the same password. There is none where the system gives no random
/// numbers.
#[verifier::external_body]
fn hash_password(password: &str) -> (hash: Option<String>)
    ensures
        hash matches Some(h) ==> {
            &&& starts_with(h@, "$y$j9T$"@)
            &&& cost::params_of(h@) matches Some(params) && cost::yescrypt_params(params) == Some(
                (4096u64, 32u32, 1u32),
            )
            &&& yescrypt_verifies(password@, h@)
        },
{
    Yescrypt::default().hash_password(password.as_bytes()).ok().map(|hash| hash.to_string())
}

/// A hash to verify against where there is no real one. It takes as much work as a real one, so
/// make it once and keep it.
pub fn get_dummy_hash() -> (hash: Option<String>)
    ensures
        hash matches Some(h) ==> {
            &&& starts_with(h@, "$y$j9T$"@)
            &&& hash_matches("this might be overkill"@, h@)
        },
{
    hash_password("this might be overkill")
}

/// Whether a secret is the one behind a stored hash.
fn check_hash(secret: &str, hash: &str) -> (r: bool)
    ensures
        r == hash_matches(secret@, hash@),
{
    if !is_cost_bounded(hash) {
        return false;
    }
    verify_password(secret, hash)
}

/// Does the work of verifying a key without a key, so that an attempt that never reaches a real
/// hash costs as much as one with a wrong key. What comes out is of no use to the caller.
pub fn dummy_verify(dummy_hash: &str) -> (r: bool)
    ensures
        r == hash_matches("it probably is"@, dummy_hash@),
{
    check_hash("it probably is", dummy_hash)
}

/// The verifications that were made, in order: of each, whether the hash accepted the secret. That
/// can only be told by making the verification, but for a hash whose memory cannot be allocated.
#[derive(Debug)]
pub struct WorkLog {
    outcomes: Vec<bool>,
}

impl View for WorkLog {
    type V = Seq<bool>;

    closed spec fn view(&self) -> Seq<bool> {
        self.outcomes@
    }
}

impl WorkLog {
    /// Nothing was verified yet.
    pub fn new() -> (log: Self)
        ensures
            log@ == Seq::<bool>::empty(),
    {
        WorkLog { outcomes: Vec::new() }
    }

    /// How many verifications were made.
    pub fn count(&self) -> (count: usize)
        ensures
            count == self@.len(),
    {
        self.outcomes.len()
    }

    /// Verifies a secret against a stored hash, and takes note of it.
    fn check(&mut self, secret: &str, hash: &str) -> (r: bool)
        ensures
            r == hash_matches(secret@, hash@),
            final(self)@ == old(self)@.push(hash_matches(secret@, hash@)),
    {
        let matched = check_hash(secret, hash);
        self.outcomes.push(matched);
        matched
    }
}

/// What verifying a secret against one hash after the other comes to, until one accepts it.
pub open spec fn outcomes(secret: Seq<char>, hashes: Seq<Seq<char>>) -> Seq<bool>
    decreases hashes.len(),
{
    if hashes.len() == 0 {
        Seq::empty()
    } else if hash_matches(secret, hashes[0]) {
        seq![true]
    } else {
        seq![false] + outcomes(secret, hashes.drop_first())
    }
}

/// The verifications that are made for a key: those of the hashes that are stored under its id,
/// or that of the dummy hash where there are none.
pub open spec fn work_for(
    entries: Seq<(Seq<char>, Seq<char>)>,
    dummy_hash: Seq<char>,
    key: Seq<char>,
) -> Seq<bool> {
    let dummy = outcomes("it probably is"@, seq![dummy_hash]);
    match text::split_once(key, '.') {
        Some((key_id, secret)) => if hashes_under(entries, key_id).len() > 0 {
            outcomes(secret, hashes_under(entries, key_id))
        } else {
            dummy
        },
        None => dummy,
    }
}

/// One line of a keys file.
#[derive(Clone, Debug)]
pub struct KeyEntry {
    pub key_id: String,
    pub hash: String,
}

/// The keys of a route: key ids with their yescrypt hashes, in the order of the file. An id may
/// stand more than once.
#[derive(Clone, Debug)]
pub struct Keys {
    pub entries: Vec<KeyEntry>,
    /// What a key without a stored hash is verified against.
    pub dummy_hash: String,
}

/// Why a keys file is not accepted.
#[derive(Debug)]
pub enum KeysError {
    Read { path: String, source: String },
    MalformedLine { path: String, line: String },
    InvalidHash { path: String, line: String, line_num: usize, reason: String },
}

/// What one line of a keys file says.
pub enum LineContent {
    Blank,
    Entry(Seq<char>, Seq<char>),
    NoColon,
    NotYescrypt,
}

/// Reads one line of a keys file, of which white space at either end does not count: a key id, a
/// colon and a hash that begins with `$y$`.
pub open spec fn line_content(line: Seq<char>) -> LineContent {
    let trimmed = text::trim(line);
    if trimmed.len() == 0 {
        LineContent::Blank
    } else {
        match text::split_once(trimmed, ':') {
            None => LineContent::NoColon,
            Some((key_id, hash)) => if starts_with(hash, "$y$"@) {
                LineContent::Entry(key_id, hash)
            } else {
                LineContent::NotYescrypt
            },
        }
    }
}

/// Where and why reading a keys file stopped.
pub struct LineFault {
    pub line: Seq<char>,
    /// Counted from one.
    pub line_num: nat,
    pub has_colon: bool,
}

/// The entries of a keys file, or its first line that says nothing usable.
pub open spec fn keys_of_lines(lines: Seq<Seq<char>>) -> Result<
    Seq<(Seq<char>, Seq<char>)>,
    LineFault,
>
    decreases lines.len(),
{
    if lines.len() == 0 {
        Ok(Seq::empty())
    } else {
        match keys_of_lines(lines.drop_last()) {
            Err(fault) => Err(fault),
            Ok(entries) => match line_content(lines.last()) {
                LineContent::Blank => Ok(entries),
                LineContent::Entry(key_id, hash) => Ok(entries.push((key_id, hash))),
                LineContent::NoColon => Err(
                    LineFault {
                        line: text::trim(lines.last()),
                        line_num: lines.len(),
                        has_colon: false,
                    },
                ),
                LineContent::NotYescrypt => Err(
                    LineFault {
                        line: text::trim(lines.last()),
                        line_num: lines.len(),
                        has_colon: true,
                    },
                ),
            },
        }
    }
}

/// The entries of a keys file with this content.
pub open spec fn keys_of_content(content: Seq<char>) -> Result<
    Seq<(Seq<char>, Seq<char>)>,
    LineFault,
> {
    keys_of_lines(text::split(content, '\n'))
}

/// Whether one of the entries accepts a key: `keyid.secret`, split at the first dot.
pub open spec fn key_accepted(entries: Seq<(Seq<char>, Seq<char>)>, key: Seq<char>) -> bool {
    match text::split_once(key, '.') {
        Some((key_id, secret)) => exists|i: int|
            0 <= i < entries.len() && (#[trigger] entries[i]).0 == key_id && hash_matches(
                secret,
                entries[i].1,
            ),
        None => false,
    }
}

/// What one line of a keys file says, with the texts that are kept of it.
enum Line {
    Blank,
    Entry(KeyEntry),
    NoColon(String),
    NotYescrypt(String),
}

impl View for KeyEntry {
    type V = (Seq<char>, Seq<char>);

    open spec fn view(&self) -> (Seq<char>, Seq<char>) {
        (self.key_id@, self.hash@)
    }
}

impl View for Keys {
    type V = Seq<(Seq<char>, Seq<char>)>;

    open spec fn view(&self) -> Seq<(Seq<char>, Seq<char>)> {
        self.entries@.map_values(|entry: KeyEntry| entry@)
    }
}

/// Reads the line that stands at `start..end` of the content.
fn read_line(content: &str, chars: &Vec<char>, start: usize, end: usize) -> (line: Line)
    requires
        chars@ == content@,
        start <= end <= chars@.len(),
    ensures
        line is Blank || start < end,
        ({
            let raw = content@.subrange(start as int, end as int);
            match line {
                Line::Blank => line_content(raw) == LineContent::Blank,
                Line::Entry(entry) => line_content(raw) == LineContent::Entry(
                    entry.key_id@,
                    entry.hash@,
                ),
                Line::NoColon(text) => line_content(raw) == LineContent::NoColon && text@
                    == text::trim(raw),
                Line::NotYescrypt(text) => line_content(raw) == LineContent::NotYescrypt && text@
                    == text::trim(raw),
            }
        }),
{
    let ghost raw = content@.subrange(start as int, end as int);
    let (from, to) = trim_range(slice_subrange(chars.as_slice(), start, end));
    let ghost trimmed = text::trim(raw);
    let (from, to) = (start + from, start + to);
    assert(content@.subrange(from as int, to as int) =~= trimmed);
    if from == to {
        return Line::Blank;
    }
    match find_char(slice_subrange(chars.as_slice(), from, to), ':') {
        None => Line::NoColon(content.substring_char(from, to).to_string()),
        Some(colon) => {
            let colon = from + colon;
            let key_id = content.substring_char(from, colon).to_string();
            let hash = content.substring_char(colon + 1, to).to_string();
            assert(key_id@ =~= trimmed.take(colon - from));
            assert(hash@ =~= trimmed.skip(colon - from + 1));
            proof {
                reveal_strlit("$y$");
            }
            let at = colon + 1;
            if to - at >= 3 && chars[at] == '$' && chars[at + 1] == 'y' && chars[at + 2] == '$' {
                assert(hash@.take(3) =~= "$y$"@);
                Line::Entry(KeyEntry { key_id, hash })
            } else {
                proof {
                    if starts_with(hash@, "$y$"@) {
                        assert(hash@.take(3)[0] == '$' && hash@.take(3)[1] == 'y' && hash@.take(
                            3,
                        )[2] == '$');
                    }
                }
                Line::NotYescrypt(content.substring_char(from, to).to_string())
            }
        },
    }
}

impl Keys {
    /// No keys at all.
    pub fn new(dummy_hash: String) -> (keys: Self)
        ensures
            keys@ == Seq::<(Seq<char>, Seq<char>)>::empty(),
            keys.dummy_hash@ == dummy_hash@,
    {
        let keys = Keys { entries: Vec::new(), dummy_hash };
        assert(keys@ =~= Seq::empty());
        keys
    }

    /// Adds a hash under a key id, after those that it already has.
    pub fn add(&mut self, key_id: String, hash: String)
        ensures
            final(self)@ == old(self)@.push((key_id@, hash@)),
            final(self).dummy_hash == old(self).dummy_hash,
    {
        self.entries.push(KeyEntry { key_id, hash });
        assert(self@ =~= old(self)@.push((key_id@, hash@)));
    }

    /// Takes in the line at `start..end` of the content, which stands after `lines_before` others.
    fn take_line(
        &mut self,
        path: &str,
        content: &str,
        chars: &Vec<char>,
        start: usize,
        end: usize,
        lines_before: usize,
    ) -> (r: Result<(), KeysError>)
        requires
            chars@ == content@,
            lines_before <= start <= end <= chars@.len(),
        ensures
            final(self).dummy_hash == old(self).dummy_hash,
            ({
                let raw = content@.subrange(start as int, end as int);
                match line_content(raw) {
                    LineContent::Blank => r is Ok && final(self)@ == old(self)@,
                    LineContent::Entry(key_id, hash) => r is Ok && final(self)@ == old(self)@.push(
                        (key_id, hash),
                    ),
                    LineContent::NoColon => r matches Err(e) && is_fault(
                        e,
                        path@,
                        LineFault {
                            line: text::trim(raw),
                            line_num: lines_before as nat + 1,
                            has_colon: false,
                        },
                    ),
                    LineContent::NotYescrypt => r matches Err(e) && is_fault(
                        e,
                        path@,
                        LineFault {
                            line: text::trim(raw),
                            line_num: lines_before as nat + 1,
                            has_colon: true,
                        },
                    ),
                }
            }),
    {
        match read_line(content, chars, start, end) {
            Line::Blank => Ok(()),
            Line::Entry(entry) => {
                self.add(entry.key_id, entry.hash);
                Ok(())
            },
            Line::NoColon(line) => Err(KeysError::MalformedLine { path: path.to_string(), line }),
            Line::NotYescrypt(line) => Err(
                KeysError::InvalidHash {
                    path: path.to_string(),
                    line,
                    line_num: lines_before + 1,
                    reason: "not a valid yescrypt PHC string".to_string(),
                },
            ),
        }
    }

    /// The keys in a file, given what reading it gave: its content, or the reason for which it
    /// could not be read.
    pub fn from_file(path: &str, file: &Result<String, String>, dummy_hash: String) -> (keys:
        Result<Keys, KeysError>)
        ensures
            match keys_of_file(*file) {
                Some(entries) => keys matches Ok(k) && k@ == entries && k.dummy_hash@
                    == dummy_hash@,
                None => keys matches Err(e) && reports_file(e, path@, *file),
            },
    {
        match file {
            Ok(content) => Keys::from_content(path, content.as_str(), dummy_hash),
            Err(reason) => Err(
                KeysError::Read { path: path.to_string(), source: reason.as_str().to_string() },
            ),
        }
    }

    /// The keys in a file with this content.
    fn from_content(path: &str, content: &str, dummy_hash: String) -> (keys: Result<
        Keys,
        KeysError,
    >)
        ensures
            match keys_of_content(content@) {
                Ok(entries) => keys matches Ok(k) && k@ == entries && k.dummy_hash@ == dummy_hash@,
                Err(fault) => keys matches Err(e) && is_fault(e, path@, fault),
            },
    {
        let chars = chars_of(content);
        let len = chars.len();
        let ghost s = content@;
        let mut keys = Keys::new(dummy_hash);
        let mut start: usize = 0;
        let mut lines_before: usize = 0;
        let ghost mut done: Seq<Seq<char>> = Seq::empty();
        proof {
            let none = Seq::<char>::empty();
            assert(s.take(0) =~= none && s.subrange(0, 0) =~= none);
            assert(text::split(none, '\n') =~= done.push(none));
        }
        for i in 0..len
            invariant
                len == chars.len(),
                chars@ == s,
                content@ == s,
                start <= i,
                lines_before == done.len(),
                lines_before <= start,
                keys.dummy_hash@ == dummy_hash@,
                text::split(s.take(i as int), '\n') == done.push(
                    s.subrange(start as int, i as int),
                ),
                keys_of_lines(done) == Ok::<_, LineFault>(keys@),
        {
            let ghost line = s.subrange(start as int, i as int);
            assert(s.take(i + 1).drop_last() =~= s.take(i as int));
            if chars[i] == '\n' {
                proof {
                    assert(done.push(line).drop_last() =~= done);
                    lemma_split_prefix(s, i as int, '\n');
                    lemma_fault_stands(text::split(s, '\n'), done.len() as int + 1);
                    assert(text::split(s, '\n').take(done.len() as int + 1) =~= done.push(line));
                }
                if let Err(e) = keys.take_line(path, content, &chars, start, i, lines_before) {
                    return Err(e);
                }
                proof {
                    done = done.push(line);
                }
                start = i + 1;
                lines_before = lines_before + 1;
                assert(s.subrange(start as int, i + 1) =~= Seq::empty());
                assert(text::split(s.take(i + 1), '\n') =~= done.push(
                    s.subrange(start as int, i + 1),
                ));
            } else {
                assert(done.push(line).drop_last() =~= done);
                assert(s.subrange(start as int, i + 1) =~= line.push(s[i as int]));
            }
        }
        proof {
            assert(s.take(len as int) =~= s);
            assert(done.push(s.subrange(start as int, len as int)).drop_last() =~= done);
        }
        match keys.take_line(path, content, &chars, start, len, lines_before) {
            Ok(()) => Ok(keys),
            Err(e) => Err(e),
        }
    }

    /// Which hashes a key of the form `keyid.secret` is verified against: those that are stored
    /// under its id. Where there are none, a dummy takes their place, so that there is always
    /// at least one hash to verify against.
    pub fn plan(&self, key: &str) -> (plan: VerifyPlan)
        ensures
            plan.is_for(self@, self.dummy_hash@, key@),
    {
        let chars = chars_of(key);
        let len = chars.len();
        let dot = match find_char(chars.as_slice(), '.') {
            Some(dot) => dot,
            None => {
                return VerifyPlan::dummy(self.dummy_hash.as_str());
            },
        };
        let key_id = key.substring_char(0, dot);
        let secret = key.substring_char(dot + 1, len);
        assert(key_id@ =~= key@.take(dot as int));
        assert(secret@ =~= key@.skip(dot + 1));
        let mut hashes: Vec<String> = Vec::new();
        assert(self@.take(0) =~= Seq::empty());
        assert(hash_texts(hashes@) =~= hashes_under(self@.take(0), key_id@));
        for i in 0..self.entries.len()
            invariant
                hash_texts(hashes@) == hashes_under(self@.take(i as int), key_id@),
        {
            let entry = &self.entries[i];
            assert(self@[i as int] == entry@);
            assert(self@.take(i + 1).drop_last() =~= self@.take(i as int));
            let ghost before = hash_texts(hashes@);
            if same_text(entry.key_id.as_str(), key_id) {
                hashes.push(entry.hash.as_str().to_string());
                assert(hash_texts(hashes@) =~= before.push(entry.hash@));
            }
        }
        assert(self@.take(self@.len() as int) =~= self@);
        if hashes.len() == 0 {
            return VerifyPlan::dummy(self.dummy_hash.as_str());
        }
        VerifyPlan { genuine: true, secret: secret.to_string(), hashes }
    }

    /// Verifies a key of the form `keyid.secret` against the hashes stored under its id, or a
    /// dummy against the dummy hash where there are none. The verifications that are made go into
    /// the log.
    pub fn verify(&self, key: &str, work: &mut WorkLog) -> (accepted: bool)
        ensures
            accepted == key_accepted(self@, key@),
            final(work)@ == old(work)@ + work_for(self@, self.dummy_hash@, key@),
    {
        let plan = self.plan(key);
        proof {
            lemma_plan_decides(plan, self@, self.dummy_hash@, key@);
        }
        plan.run(work)
    }
}

/// The hashes that stand under an id, in their order.
pub open spec fn hashes_under(entries: Seq<(Seq<char>, Seq<char>)>, key_id: Seq<char>) -> Seq<
    Seq<char>,
>
    decreases entries.len(),
{
    if entries.len() == 0 {
        Seq::empty()
    } else {
        let before = hashes_under(entries.drop_last(), key_id);
        if entries.last().0 == key_id {
            before.push(entries.last().1)
        } else {
            before
        }
    }
}

/// The texts of hashes.
pub open spec fn hash_texts(hashes: Seq<String>) -> Seq<Seq<char>> {
    hashes.map_values(|hash: String| hash@)
}

/// Which hashes a key is verified against.
#[derive(Debug)]
pub struct VerifyPlan {
    /// Whether the hashes are those of the key's id; a dummy proves nothing.
    pub genuine: bool,
    pub secret: String,
    pub hashes: Vec<String>,
}

impl VerifyPlan {
    /// The plan does the work of verifying a key, and accepts none.
    pub open spec fn is_dummy(&self, dummy_hash: Seq<char>) -> bool {
        &&& !self.genuine
        &&& self.secret@ == "it probably is"@
        &&& hash_texts(self.hashes@) == seq![dummy_hash]
    }

    /// The plan is the one for a key.
    pub open spec fn is_for(
        &self,
        entries: Seq<(Seq<char>, Seq<char>)>,
        dummy_hash: Seq<char>,
        key: Seq<char>,
    ) -> bool {
        match text::split_once(key, '.') {
            Some((key_id, secret)) => if hashes_under(entries, key_id).len() > 0 {
                &&& self.genuine
                &&& self.secret@ == secret
                &&& hash_texts(self.hashes@) == hashes_under(entries, key_id)
            } else {
                self.is_dummy(dummy_hash)
            },
            None => self.is_dummy(dummy_hash),
        }
    }

    /// The plan for a key that nothing is stored for.
    fn dummy(dummy_hash: &str) -> (plan: VerifyPlan)
        ensures
            plan.is_dummy(dummy_hash@),
    {
        let mut hashes: Vec<String> = Vec::new();
        hashes.push(dummy_hash.to_string());
        assert(hash_texts(hashes@) =~= seq![dummy_hash@]);
        VerifyPlan { genuine: false, secret: "it probably is".to_string(), hashes }
    }

    /// Whether the key is accepted, given whether one of the hashes accepts the secret.
    pub fn decide(&self, matched: bool) -> (accepted: bool)
        ensures
            accepted == (self.genuine && matched),
    {
        self.genuine && matched
    }

    /// Verifies the secret against one hash after the other, until one accepts it. A dummy is
    /// verified too, though its outcome does not matter.
    pub fn run(&self, work: &mut WorkLog) -> (accepted: bool)
        ensures
            final(work)@ == old(work)@ + outcomes(self.secret@, hash_texts(self.hashes@)),
            accepted == (self.genuine && exists|i: int|
                0 <= i < self.hashes@.len() && hash_matches(
                    self.secret@,
                    (#[trigger] self.hashes@[i])@,
                )),
    {
        let ghost all = hash_texts(self.hashes@);
        let ghost before = work@;
        assert(all.skip(0) =~= all);
        assert(before + outcomes(self.secret@, all) =~= work@ + outcomes(
            self.secret@,
            all.skip(0),
        ));
        for i in 0..self.hashes.len()
            invariant
                all == hash_texts(self.hashes@),
                before == old(work)@,
                before + outcomes(self.secret@, all) == work@ + outcomes(
                    self.secret@,
                    all.skip(i as int),
                ),
                forall|j: int|
                    0 <= j < i ==> !hash_matches(self.secret@, (#[trigger] self.hashes@[j])@),
        {
            let ghost made = work@;
            let ghost left = all.skip(i as int);
            assert(left[0] == self.hashes@[i as int]@);
            assert(left.drop_first() =~= all.skip(i + 1));
            if work.check(self.secret.as_str(), self.hashes[i].as_str()) {
                assert(work@ =~= made + seq![true]);
                return self.decide(true);
            }
            assert(work@ + outcomes(self.secret@, all.skip(i + 1)) =~= made + (seq![false]
                + outcomes(self.secret@, all.skip(i + 1))));
        }
        assert(work@ + outcomes(self.secret@, all.skip(all.len() as int)) =~= work@);
        self.decide(false)
    }
}

/// A hash stands under an id exactly where an entry has both.
pub proof fn lemma_hashes_under(
    entries: Seq<(Seq<char>, Seq<char>)>,
    key_id: Seq<char>,
    hash: Seq<char>,
)
    ensures
        hashes_under(entries, key_id).contains(hash) <==> entries.contains((key_id, hash)),
    decreases entries.len(),
{
    let all = hashes_under(entries, key_id);
    if entries.len() > 0 {
        let front = entries.drop_last();
        let before = hashes_under(front, key_id);
        lemma_hashes_under(front, key_id, hash);
        if entries.contains((key_id, hash)) {
            let i = choose|i: int| 0 <= i < entries.len() && entries[i] == (key_id, hash);
            if i < front.len() {
                assert(front[i] == (key_id, hash));
                let j = choose|j: int| 0 <= j < before.len() && before[j] == hash;
                assert(all[j] == hash);
            } else {
                assert(all[before.len() as int] == hash);
            }
        }
        if all.contains(hash) {
            let j = choose|j: int| 0 <= j < all.len() && all[j] == hash;
            if j < before.len() {
                assert(before[j] == hash);
                let i = choose|i: int| 0 <= i < front.len() && front[i] == (key_id, hash);
                assert(entries[i] == (key_id, hash));
            } else {
                assert(entries[entries.len() - 1] == (key_id, hash));
            }
        }
    }
}

/// Carrying out the plan for a key decides whether it is accepted.
proof fn lemma_plan_decides(
    plan: VerifyPlan,
    entries: Seq<(Seq<char>, Seq<char>)>,
    dummy_hash: Seq<char>,
    key: Seq<char>,
)
    requires
        plan.is_for(entries, dummy_hash, key),
    ensures
        key_accepted(entries, key) == (plan.genuine && exists|i: int|
            0 <= i < plan.hashes@.len() && hash_matches(
                plan.secret@,
                (#[trigger] plan.hashes@[i])@,
            )),
{
    if let Some((key_id, secret)) = text::split_once(key, '.') {
        let under = hashes_under(entries, key_id);
        if key_accepted(entries, key) {
            let i = choose|i: int|
                0 <= i < entries.len() && (#[trigger] entries[i]).0 == key_id && hash_matches(
                    secret,
                    entries[i].1,
                );
            assert(entries[i] == (key_id, entries[i].1));
            lemma_hashes_under(entries, key_id, entries[i].1);
            let j = choose|j: int| 0 <= j < under.len() && under[j] == entries[i].1;
            assert(hash_texts(plan.hashes@)[j] == plan.hashes@[j]@);
        }
        if plan.genuine && exists|i: int|
            0 <= i < plan.hashes@.len() && hash_matches(
                plan.secret@,
                (#[trigger] plan.hashes@[i])@,
            ) {
            let j = choose|j: int|
                0 <= j < plan.hashes@.len() && hash_matches(
                    plan.secret@,
                    (#[trigger] plan.hashes@[j])@,
                );
            assert(hash_texts(plan.hashes@)[j] == plan.hashes@[j]@);
            lemma_hashes_under(entries, key_id, under[j]);
            let i = choose|i: int| 0 <= i < entries.len() && entries[i] == (key_id, under[j]);
            assert(entries[i].0 == key_id);
        }
    }
}

/// The error that reports a fault in a keys file.
pub open spec fn is_fault(error: KeysError, file: Seq<char>, fault: LineFault) -> bool {
    match error {
        KeysError::Read { .. } => false,
        KeysError::MalformedLine { path, line } => {
            &&& !fault.has_colon
            &&& path@ == file
            &&& line@ == fault.line
        },
        KeysError::InvalidHash { path, line, line_num, reason } => {
            &&& fault.has_colon
            &&& path@ == file
            &&& line@ == fault.line
            &&& line_num == fault.line_num
            &&& reason@ == "not a valid yescrypt PHC string"@
        },
    }
}

impl KeysError {
    /// The error in words.
    pub open spec fn in_words(&self) -> Seq<char> {
        match *self {
            KeysError::Read { path, source } => "failed to read keys file "@ + path@ + ": "@
                + source@,
            KeysError::MalformedLine { path, line } => "malformed line in "@ + path@
                + " (no ':'): "@ + line@,
            KeysError::InvalidHash { path, line, line_num, reason } => "invalid hash in "@ + path@
                + " line "@ + text::decimal(line_num as nat) + ": "@ + reason@,
        }
    }

    /// Renders the error.
    pub fn message(&self) -> (message: String)
        ensures
            message@ == self.in_words(),
    {
        match self {
            KeysError::Read { path, source } => {
                let mut message = "failed to read keys file ".to_string();
                message.append(path.as_str());
                message.append(": ");
                message.append(source.as_str());
                message
            },
            KeysError::MalformedLine { path, line } => {
                let mut message = "malformed line in ".to_string();
                message.append(path.as_str());
                message.append(" (no ':'): ");
                message.append(line.as_str());
                message
            },
            KeysError::InvalidHash { path, line: _, line_num, reason } => {
                let mut message = "invalid hash in ".to_string();
                message.append(path.as_str());
                message.append(" line ");
                message.append(decimal_text(*line_num as u64).as_str());
                message.append(": ");
                message.append(reason.as_str());
                message
            },
        }
    }
}

/// The entries of a keys file, given what reading it gave; `None` where it is not accepted.
pub open spec fn keys_of_file(file: Result<String, String>) -> Option<
    Seq<(Seq<char>, Seq<char>)>,
> {
    match file {
        Ok(content) => match keys_of_content(content@) {
            Ok(entries) => Some(entries),
            Err(_) => None,
        },
        Err(_) => None,
    }
}

/// The error that reports why a keys file is not accepted.
pub open spec fn reports_file(
    error: KeysError,
    file_path: Seq<char>,
    file: Result<String, String>,
) -> bool {
    match file {
        Err(reason) => error matches KeysError::Read { path, source } && path@ == file_path
            && source@ == reason@,
        Ok(content) => keys_of_content(content@) matches Err(fault) && is_fault(
            error,
            file_path,
            fault,
        ),
    }
}

/// The pieces of a beginning of `s` are the first pieces of `s`; the last one is where a separator
/// follows.
proof fn lemma_split_prefix<A>(s: Seq<A>, n: int, sep: A)
    requires
        0 <= n <= s.len(),
    ensures
        text::split(s, sep).len() >= text::split(s.take(n), sep).len(),
        forall|i: int|
            0 <= i < text::split(s.take(n), sep).len() - 1 ==> text::split(s, sep)[i]
                == #[trigger] text::split(s.take(n), sep)[i],
        n < s.len() && s[n] == sep ==> {
            let front = text::split(s.take(n), sep);
            text::split(s, sep).len() > front.len() && text::split(s, sep)[front.len() - 1]
                == front.last()
        },
    decreases s.len(),
{
    text::lemma_split_nonempty(s.take(n), sep);
    if n < s.len() {
        text::lemma_split_concat(s.take(n), sep, s.skip(n + 1));
        text::lemma_split_nonempty(s.skip(n + 1), sep);
        text::lemma_split_nonempty(s.drop_last(), sep);
        assert(s.drop_last().take(n) =~= s.take(n));
        lemma_split_prefix(s.drop_last(), n, sep);
        if s[n] == sep {
            assert(s.take(n).push(sep) + s.skip(n + 1) =~= s);
        }
    } else {
        assert(s.take(n) =~= s);
    }
}

/// A fault in the first lines is the fault of the file.
proof fn lemma_fault_stands(lines: Seq<Seq<char>>, n: int)
    requires
        0 <= n <= lines.len(),
    ensures
        keys_of_lines(lines.take(n)) is Err ==> keys_of_lines(lines) == keys_of_lines(
            lines.take(n),
        ),
    decreases lines.len(),
{
    if n < lines.len() {
        assert(lines.drop_last().take(n) =~= lines.take(n));
        lemma_fault_stands(lines.drop_last(), n);
    } else {
        assert(lines.take(n) =~= lines);
    }
}

} // verus!
