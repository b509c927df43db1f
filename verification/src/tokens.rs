//! Bearer tokens for the HTTP list API: issuing, listing, revoking and
//! spending them against the token store.

use vstd::prelude::*;

use crate::types::ChatKey;

verus! {

broadcast use vstd::seq_lib::group_seq_lib_default;

/// One issued token.
#[derive(Debug, Clone, PartialEq)]
pub struct TokenRecord {
    pub id: i64,
    pub chat_id: i64,
    pub token: String,
    pub issued_at: i64,
    pub last_used_at: Option<i64>,
    pub revoked_at: Option<i64>,
}

/// Mathematical image of a [`TokenRecord`].
pub ghost struct TokenModel {
    pub id: int,
    pub chat_id: int,
    pub token: Seq<char>,
    pub issued_at: int,
    pub last_used_at: Option<int>,
    pub revoked_at: Option<int>,
}

impl View for TokenRecord {
    type V = TokenModel;

    open spec fn view(&self) -> TokenModel {
        TokenModel {
            id: self.id as int,
            chat_id: self.chat_id as int,
            token: self.token@,
            issued_at: self.issued_at as int,
            last_used_at: match self.last_used_at {
                Some(v) => Some(v as int),
                None => None,
            },
            revoked_at: match self.revoked_at {
                Some(v) => Some(v as int),
                None => None,
            },
        }
    }
}

/// The durable token store.
pub struct TokenStore {
    records: Vec<TokenRecord>,
    next_id: i64,
}

impl View for TokenStore {
    type V = Seq<TokenModel>;

    closed spec fn view(&self) -> Seq<TokenModel> {
        self.records@.map_values(|t: TokenRecord| t@)
    }
}

/// Whether a record is the live (non-revoked) bearer of `token`.
pub open spec fn token_live(m: TokenModel, token: Seq<char>) -> bool {
    m.token == token && m.revoked_at is None
}

/// The store after spending `token`: every live record bearing it gets
/// `used_at` as its last use.
pub open spec fn use_token_model(s: Seq<TokenModel>, token: Seq<char>, used_at: int) -> Seq<
    TokenModel,
> {
    s.map_values(
        |m: TokenModel| if token_live(m, token) {
            TokenModel { last_used_at: Some(used_at), ..m }
        } else {
            m
        },
    )
}

/// The store after revoking `token` within `chat`.
pub open spec fn revoke_token_model(
    s: Seq<TokenModel>,
    chat: int,
    token: Seq<char>,
    revoked_at: int,
) -> Seq<TokenModel> {
    s.map_values(
        |m: TokenModel| if m.chat_id == chat && token_live(m, token) {
            TokenModel { revoked_at: Some(revoked_at), ..m }
        } else {
            m
        },
    )
}

/// Index of the first live record bearing `token`, or the length.
pub open spec fn find_live(s: Seq<TokenModel>, token: Seq<char>) -> int
    decreases s.len(),
{
    if s.len() == 0 {
        0
    } else if token_live(s[0], token) {
        0
    } else {
        1 + find_live(s.skip(1), token)
    }
}

proof fn lemma_find_live_at(s: Seq<TokenModel>, token: Seq<char>, i: int)
    requires
        0 <= i <= s.len(),
        forall|j: int| 0 <= j < i ==> !token_live(s[j], token),
        i == s.len() || token_live(s[i], token),
    ensures
        find_live(s, token) == i,
    decreases i,
{
    if i == 0 {
        if s.len() > 0 && !token_live(s[0], token) {
            lemma_find_live_props(s, token);
        }
    } else {
        let t = s.skip(1);
        assert(forall|j: int| 0 <= j < i - 1 ==> t[j] == s[j + 1]);
        lemma_find_live_at(t, token, i - 1);
    }
}

proof fn lemma_find_live_props(s: Seq<TokenModel>, token: Seq<char>)
    ensures
        0 <= find_live(s, token) <= s.len(),
        find_live(s, token) < s.len() ==> token_live(s[find_live(s, token)], token),
        forall|j: int| 0 <= j < find_live(s, token) ==> !token_live(s[j], token),
    decreases s.len(),
{
    if s.len() > 0 && !token_live(s[0], token) {
        let t = s.skip(1);
        lemma_find_live_props(t, token);
        assert(forall|j: int| 1 <= j < find_live(s, token) ==> s[j] == t[j - 1]);
    }
}

impl TokenStore {
    pub closed spec fn wf(&self) -> bool {
        1 <= self.next_id
    }

    pub closed spec fn next_id_spec(&self) -> int {
        self.next_id as int
    }

    pub fn new() -> (r: TokenStore)
        ensures
            r.wf(),
            r@ == Seq::<TokenModel>::empty(),
            r.next_id_spec() == 1,
    {
        let r = TokenStore { records: Vec::new(), next_id: 1 };
        proof {
            assert(r@ =~= Seq::<TokenModel>::empty());
        }
        r
    }

    /// Whether another token can still be given a fresh record id.
    pub fn can_issue(&self) -> (r: bool)
        requires
            self.wf(),
        ensures
            r == (self.next_id_spec() < i64::MAX as int),
    {
        self.next_id < i64::MAX
    }

    /// Record a newly issued token for `chat`.
    pub fn create_token(&mut self, chat: ChatKey, token: &str, issued_at: i64)
        requires
            old(self).wf(),
            old(self).next_id_spec() < i64::MAX as int,
        ensures
            final(self).wf(),
            final(self)@ == old(self)@.push(
                TokenModel {
                    id: old(self).next_id_spec(),
                    chat_id: chat.0 as int,
                    token: token@,
                    issued_at: issued_at as int,
                    last_used_at: None,
                    revoked_at: None,
                },
            ),
    {
        let id = self.next_id;
        self.next_id = self.next_id + 1;
        self.records.push(
            TokenRecord {
                id,
                chat_id: chat.0,
                token: token.to_owned(),
                issued_at,
                last_used_at: None,
                revoked_at: None,
            },
        );
        proof {
            assert(final(self)@ =~= old(self)@.push(
                TokenModel {
                    id: id as int,
                    chat_id: chat.0 as int,
                    token: token@,
                    issued_at: issued_at as int,
                    last_used_at: None,
                    revoked_at: None,
                },
            ));
        }
    }

    /// The chat's tokens, most recently issued first (ties broken by the
    /// later-created record first).
    pub fn list_tokens(&self, chat: ChatKey) -> (r: Vec<TokenRecord>)
        ensures
            r@.map_values(|t: TokenRecord| t@) == sorted_tokens(
                self@.filter(|m: TokenModel| m.chat_id == chat.0 as int),
            ),
    {
        let ghost keep = |m: TokenModel| m.chat_id == chat.0 as int;
        let mut matching: Vec<TokenRecord> = Vec::new();
        let mut i: usize = 0;
        proof {
            assert(matching@.map_values(|t: TokenRecord| t@) =~= self@.take(0).filter(keep));
        }
        while i < self.records.len()
            invariant
                0 <= i <= self.records@.len(),
                keep == (|m: TokenModel| m.chat_id == chat.0 as int),
                matching@.map_values(|t: TokenRecord| t@) == self@.take(i as int).filter(keep),
            decreases self.records@.len() - i,
        {
            let t = &self.records[i];
            let ghost prev = matching@;
            if t.chat_id == chat.0 {
                matching.push(clone_record(t));
                proof {
                    assert(matching@.map_values(|x: TokenRecord| x@) =~= prev.map_values(
                        |x: TokenRecord| x@,
                    ).push(self@[i as int]));
                }
            }
            proof {
                assert(self@[i as int] == self.records@[i as int]@);
                assert(self@.take(i + 1) =~= self@.take(i as int).push(self@[i as int]));
                self@.take(i as int).lemma_filter_push(self@[i as int], keep);
                assert(matching@.map_values(|x: TokenRecord| x@) =~= self@.take(i + 1).filter(
                    keep,
                ));
            }
            i = i + 1;
        }
        proof {
            assert(self@.take(self@.len() as int) =~= self@);
        }
        sort_records(matching)
    }

    /// Spend `token`: when a live record bears it, mark it used at
    /// `used_at` and return the chat it unlocks; otherwise nothing changes
    /// and nothing is unlocked.
    pub fn use_token(&mut self, token: &str, used_at: i64) -> (r: Option<ChatKey>)
        requires
            old(self).wf(),
        ensures
            final(self).wf(),
            match r {
                Some(chat) => {
                    let f = find_live(old(self)@, token@);
                    &&& f < old(self)@.len()
                    &&& chat.0 as int == old(self)@[f].chat_id
                    &&& final(self)@ == use_token_model(old(self)@, token@, used_at as int)
                },
                None => {
                    &&& forall|j: int|
                        0 <= j < old(self)@.len() ==> !token_live(old(self)@[j], token@)
                    &&& final(self)@ == old(self)@
                },
            },
    {
        let ghost before = self@;
        let mut i: usize = 0;
        let mut found = false;
        while i < self.records.len() && !found
            invariant
                0 <= i <= self.records@.len(),
                self == old(self),
                before == self@,
                !found ==> forall|j: int| 0 <= j < i ==> !token_live(before[j], token@),
                found ==> i < before.len() && token_live(before[i as int], token@) && forall|
                    j: int,
                |
                    0 <= j < i ==> !token_live(before[j], token@),
            decreases self.records@.len() - i + (if found {
                0int
            } else {
                1int
            }),
        {
            let live = self.records[i].revoked_at.is_none() && crate::strutil::str_eq(
                self.records[i].token.as_str(),
                token,
            );
            proof {
                assert(before[i as int] == self.records@[i as int]@);
            }
            if live {
                found = true;
            } else {
                i = i + 1;
            }
        }
        if found {
            proof {
                lemma_find_live_at(before, token@, i as int);
            }
            let chat = ChatKey(self.records[i].chat_id);
            proof {
                assert(before[i as int] == self.records@[i as int]@);
            }
            self.mark_used(token, used_at);
            Some(chat)
        } else {
            proof {
                assert(forall|j: int| 0 <= j < before.len() ==> !token_live(before[j], token@));
            }
            None
        }
    }

    /// Stamp every live record bearing `token` as used at `used_at`.
    fn mark_used(&mut self, token: &str, used_at: i64)
        requires
            old(self).wf(),
        ensures
            final(self).wf(),
            final(self)@ == use_token_model(old(self)@, token@, used_at as int),
    {
        let ghost f = |m: TokenModel| if token_live(m, token@) {
            TokenModel { last_used_at: Some(used_at as int), ..m }
        } else {
            m
        };
        let mut out: Vec<TokenRecord> = Vec::new();
        let mut i: usize = 0;
        proof {
            assert(out@.map_values(|t: TokenRecord| t@) =~= old(self)@.take(0).map_values(f));
        }
        while i < self.records.len()
            invariant
                0 <= i <= self.records@.len(),
                self == old(self),
                f == (|m: TokenModel| if token_live(m, token@) {
                    TokenModel { last_used_at: Some(used_at as int), ..m }
                } else {
                    m
                }),
                out@.map_values(|t: TokenRecord| t@) == old(self)@.take(i as int).map_values(f),
            decreases self.records@.len() - i,
        {
            let t = &self.records[i];
            let live = t.revoked_at.is_none() && crate::strutil::str_eq(t.token.as_str(), token);
            let last_used_at = if live {
                Some(used_at)
            } else {
                t.last_used_at
            };
            out.push(
                TokenRecord {
                    id: t.id,
                    chat_id: t.chat_id,
                    token: t.token.clone(),
                    issued_at: t.issued_at,
                    last_used_at,
                    revoked_at: t.revoked_at,
                },
            );
            proof {
                assert(old(self)@[i as int] == self.records@[i as int]@);
                assert(old(self)@.take(i + 1) =~= old(self)@.take(i as int).push(
                    old(self)@[i as int],
                ));
                assert(old(self)@.take(i + 1).map_values(f) =~= old(self)@.take(
                    i as int,
                ).map_values(f).push(f(old(self)@[i as int])));
                assert(out@.map_values(|t: TokenRecord| t@) =~= old(self)@.take(
                    i + 1,
                ).map_values(f));
            }
            i = i + 1;
        }
        self.records = out;
        proof {
            assert(old(self)@.take(old(self)@.len() as int) =~= old(self)@);
            assert(final(self)@ =~= use_token_model(old(self)@, token@, used_at as int));
        }
    }

    /// Revoke `token` within `chat`; reports whether any live record
    /// matched.
    pub fn revoke_token(&mut self, chat: ChatKey, token: &str, revoked_at: i64) -> (r: bool)
        requires
            old(self).wf(),
        ensures
            final(self).wf(),
            final(self)@ == revoke_token_model(
                old(self)@,
                chat.0 as int,
                token@,
                revoked_at as int,
            ),
            r == exists|j: int|
                0 <= j < old(self)@.len() && (#[trigger] old(self)@[j]).chat_id == chat.0 as int
                    && token_live(old(self)@[j], token@),
    {
        let ghost f = |m: TokenModel| if m.chat_id == chat.0 as int && token_live(m, token@) {
            TokenModel { revoked_at: Some(revoked_at as int), ..m }
        } else {
            m
        };
        let mut out: Vec<TokenRecord> = Vec::new();
        let mut any = false;
        let mut i: usize = 0;
        proof {
            assert(out@.map_values(|t: TokenRecord| t@) =~= old(self)@.take(0).map_values(f));
        }
        while i < self.records.len()
            invariant
                0 <= i <= self.records@.len(),
                self == old(self),
                f == (|m: TokenModel| if m.chat_id == chat.0 as int && token_live(m, token@) {
                    TokenModel { revoked_at: Some(revoked_at as int), ..m }
                } else {
                    m
                }),
                out@.map_values(|t: TokenRecord| t@) == old(self)@.take(i as int).map_values(f),
                any == exists|j: int|
                    0 <= j < i && (#[trigger] old(self)@[j]).chat_id == chat.0 as int
                        && token_live(old(self)@[j], token@),
            decreases self.records@.len() - i,
        {
            let t = &self.records[i];
            let matched = t.chat_id == chat.0 && t.revoked_at.is_none()
                && crate::strutil::str_eq(t.token.as_str(), token);
            let revoked = if matched {
                Some(revoked_at)
            } else {
                t.revoked_at
            };
            out.push(
                TokenRecord {
                    id: t.id,
                    chat_id: t.chat_id,
                    token: t.token.clone(),
                    issued_at: t.issued_at,
                    last_used_at: t.last_used_at,
                    revoked_at: revoked,
                },
            );
            proof {
                assert(old(self)@[i as int] == self.records@[i as int]@);
                if matched {
                    assert(old(self)@[i as int].chat_id == chat.0 as int && token_live(
                        old(self)@[i as int],
                        token@,
                    ));
                }
                assert(old(self)@.take(i + 1) =~= old(self)@.take(i as int).push(
                    old(self)@[i as int],
                ));
                assert(old(self)@.take(i + 1).map_values(f) =~= old(self)@.take(
                    i as int,
                ).map_values(f).push(f(old(self)@[i as int])));
                assert(out@.map_values(|t: TokenRecord| t@) =~= old(self)@.take(
                    i + 1,
                ).map_values(f));
            }
            any = any || matched;
            i = i + 1;
        }
        self.records = out;
        proof {
            assert(old(self)@.take(old(self)@.len() as int) =~= old(self)@);
            assert(final(self)@ =~= revoke_token_model(
                old(self)@,
                chat.0 as int,
                token@,
                revoked_at as int,
            ));
        }
        any
    }
}

/// A field-for-field copy of a record.
fn clone_record(t: &TokenRecord) -> (r: TokenRecord)
    ensures
        r@ == t@,
{
    TokenRecord {
        id: t.id,
        chat_id: t.chat_id,
        token: t.token.clone(),
        issued_at: t.issued_at,
        last_used_at: t.last_used_at,
        revoked_at: t.revoked_at,
    }
}

/// Insert into a listing ordered "newest first": before the first record
/// that was issued strictly earlier.  Ties keep the already-listed record
/// first.
pub open spec fn insert_desc(s: Seq<TokenModel>, t: TokenModel) -> Seq<TokenModel>
    decreases s.len(),
{
    if s.len() == 0 {
        seq![t]
    } else if t.issued_at > s[0].issued_at {
        seq![t] + s
    } else {
        seq![s[0]] + insert_desc(s.skip(1), t)
    }
}

/// The listing order: records folded in newest-created-last, so that
/// among equal issue times the later-created record lists first.
pub open spec fn sorted_tokens(s: Seq<TokenModel>) -> Seq<TokenModel>
    decreases s.len(),
{
    if s.len() == 0 {
        Seq::empty()
    } else {
        insert_desc(sorted_tokens(s.skip(1)), s[0])
    }
}

proof fn lemma_insert_desc_at(s: Seq<TokenModel>, t: TokenModel, i: int)
    requires
        0 <= i <= s.len(),
        forall|j: int| 0 <= j < i ==> !(t.issued_at > s[j].issued_at),
        i == s.len() || t.issued_at > s[i].issued_at,
    ensures
        insert_desc(s, t) == s.take(i) + seq![t] + s.skip(i),
    decreases i,
{
    if i == 0 {
        if s.len() == 0 {
            assert(insert_desc(s, t) =~= s.take(0) + seq![t] + s.skip(0));
        } else {
            assert(insert_desc(s, t) =~= s.take(0) + seq![t] + s.skip(0));
        }
    } else {
        let u = s.skip(1);
        assert(forall|j: int| 0 <= j < i - 1 ==> u[j] == s[j + 1]);
        lemma_insert_desc_at(u, t, i - 1);
        assert(insert_desc(s, t) == seq![s[0]] + insert_desc(u, t));
        assert(seq![s[0]] + (u.take(i - 1) + seq![t] + u.skip(i - 1)) =~= s.take(i) + seq![t]
            + s.skip(i));
    }
}

/// Sort the matching records into listing order.
fn sort_records(recs: Vec<TokenRecord>) -> (r: Vec<TokenRecord>)
    ensures
        r@.map_values(|t: TokenRecord| t@) == sorted_tokens(
            recs@.map_values(|t: TokenRecord| t@),
        ),
{
    let ghost all = recs@.map_values(|t: TokenRecord| t@);
    let mut out: Vec<TokenRecord> = Vec::new();
    let mut i: usize = recs.len();
    proof {
        assert(all.skip(recs@.len() as int) =~= Seq::<TokenModel>::empty());
        assert(out@.map_values(|t: TokenRecord| t@) =~= sorted_tokens(
            all.skip(recs@.len() as int),
        ));
    }
    while i > 0
        invariant
            0 <= i <= recs@.len(),
            all == recs@.map_values(|t: TokenRecord| t@),
            out@.map_values(|t: TokenRecord| t@) == sorted_tokens(all.skip(i as int)),
        decreases i,
    {
        i = i - 1;
        let t = &recs[i];
        let ghost sorted_prev = out@.map_values(|x: TokenRecord| x@);
        // Find the insertion point: before the first strictly older record.
        let mut pos: usize = 0;
        while pos < out.len() && !(t.issued_at > out[pos].issued_at)
            invariant
                0 <= pos <= out@.len(),
                sorted_prev == out@.map_values(|x: TokenRecord| x@),
                all == recs@.map_values(|x: TokenRecord| x@),
                0 <= i < recs@.len(),
                t@ == all[i as int],
                forall|j: int| 0 <= j < pos ==> !(all[i as int].issued_at
                    > sorted_prev[j].issued_at),
            decreases out@.len() - pos,
        {
            proof {
                assert(sorted_prev[pos as int] == out@[pos as int]@);
                assert(all[i as int] == recs@[i as int]@);
            }
            pos = pos + 1;
        }
        proof {
            if pos < out.len() {
                assert(sorted_prev[pos as int] == out@[pos as int]@);
            }
            lemma_insert_desc_at(sorted_prev, all[i as int], pos as int);
        }
        out.insert(pos, clone_record(t));
        proof {
            assert(out@.map_values(|x: TokenRecord| x@) =~= sorted_prev.take(pos as int)
                + seq![all[i as int]] + sorted_prev.skip(pos as int));
            assert(all.skip(i as int)[0] == all[i as int]);
            assert(all.skip(i as int).skip(1) =~= all.skip(i + 1));
            assert(out@.map_values(|x: TokenRecord| x@) =~= sorted_tokens(all.skip(i as int)));
        }
    }
    proof {
        assert(all.skip(0) =~= all);
    }
    out
}

/// The first six characters of a token, safe to log.
pub fn token_preview(token: &str) -> (r: String)
    ensures
        r@ == token@.take(if token@.len() < 6 {
            token@.len() as int
        } else {
            6
        }),
{
    let n = token.unicode_len();
    let k = if n < 6 {
        n
    } else {
        6
    };
    token.substring_char(0, k).to_owned()
}

/// Relies on rand's `OsRng::try_fill_bytes`: on success it fills the
/// buffer with 32 bytes from the operating system's generator; nothing
/// can be promised of their values, and the call itself may fail when no
/// OS generator is available.
#[verifier::external_body]
fn random_bytes_32() -> (r: Option<Vec<u8>>)
    ensures
        match r {
            Some(b) => b@.len() == 32,
            None => true,
        },
{
    let mut bytes = [0u8; 32];
    match rand::TryRngCore::try_fill_bytes(&mut rand::rngs::OsRng, &mut bytes) {
        Ok(()) => Some(bytes.to_vec()),
        Err(_) => None,
    }
}

/// What base64's URL-safe unpadded encoding returns: a function of the
/// bytes alone.
pub uninterp spec fn base64_url_of(b: Seq<u8>) -> Seq<char>;

/// Relies on base64's `URL_SAFE_NO_PAD.encode`: four output characters
/// for every three input bytes, two or three more for a trailing one or
/// two bytes, no padding.
#[verifier::external_body]
fn base64_url_no_pad(bytes: &Vec<u8>) -> (r: String)
    ensures
        r@ == base64_url_of(bytes@),
        r@.len() == 4 * (bytes@.len() / 3) + (if bytes@.len() % 3 == 0 {
            0int
        } else {
            bytes@.len() as int % 3 + 1
        }),
{
    base64::Engine::encode(&base64::engine::general_purpose::URL_SAFE_NO_PAD, bytes)
}

/// A fresh API token: 32 random bytes, base64url without padding, hence
/// 43 characters.  `None` when the operating system's generator is
/// unavailable; issuing no token is then the caller's decision.
pub fn generate_token() -> (r: Option<String>)
    ensures
        match r {
            Some(t) => t@.len() == 43,
            None => true,
        },
{
    match random_bytes_32() {
        Some(bytes) => Some(base64_url_no_pad(&bytes)),
        None => None,
    }
}


/// The requested token name: the argument trimmed, or nothing when only
/// whitespace was given.
pub fn parse_token_name(text: &str) -> (r: Option<String>)
    ensures
        match r {
            Some(n) => crate::strutil::trim_spec(text@).len() > 0 && n@
                == crate::strutil::trim_spec(text@),
            None => crate::strutil::trim_spec(text@).len() == 0,
        },
{
    let trimmed = crate::strutil::trim_ws(text);
    if trimmed.unicode_len() == 0 {
        None
    } else {
        Some(trimmed.to_owned())
    }
}

/// How an issuing user is displayed: the @username when one exists, else
/// first and last name, else the first name alone.
pub fn issuer_display_name(first_name: &str, last_name: Option<&str>, username: Option<&str>) -> (r:
    String)
    ensures
        match username {
            Some(u) => r@ == "@"@ + u@,
            None => match last_name {
                Some(l) => r@ == first_name@ + " "@ + l@,
                None => r@ == first_name@,
            },
        },
{
    let mut s = String::new();
    match username {
        Some(u) => {
            s.append("@");
            s.append(u);
        },
        None => match last_name {
            Some(l) => {
                s.append(first_name);
                s.append(" ");
                s.append(l);
            },
            None => {
                s.append(first_name);
            },
        },
    }
    s
}

/// How one character is shown inside an HTML-styled message: the three
/// markup characters become entities, everything else stands as is.
pub open spec fn escape_char(c: char) -> Seq<char> {
    if c == '&' {
        "&amp;"@
    } else if c == '<' {
        "&lt;"@
    } else if c == '>' {
        "&gt;"@
    } else {
        seq![c]
    }
}

/// A string with its HTML markup characters escaped.
pub open spec fn html_escaped(s: Seq<char>) -> Seq<char>
    decreases s.len(),
{
    if s.len() == 0 {
        Seq::empty()
    } else {
        html_escaped(s.drop_last()) + escape_char(s.last())
    }
}

/// Escape `&`, `<` and `>` so user-supplied text can stand inside an
/// HTML-styled message.
pub fn html_escape(s: &str) -> (r: String)
    ensures
        r@ == html_escaped(s@),
{
    let n = s.unicode_len();
    let mut out = String::new();
    let mut i: usize = 0;
    proof {
        assert(out@ =~= html_escaped(s@.take(0)));
    }
    while i < n
        invariant
            0 <= i <= n,
            n == s@.len(),
            out@ == html_escaped(s@.take(i as int)),
        decreases n - i,
    {
        let c = s.get_char(i);
        if c == '&' {
            out.append("&amp;");
        } else if c == '<' {
            out.append("&lt;");
        } else if c == '>' {
            out.append("&gt;");
        } else {
            out.append(s.substring_char(i, i + 1));
            proof {
                assert(s@.subrange(i as int, i + 1) =~= seq![s@[i as int]]);
            }
        }
        proof {
            assert(s@.take(i + 1).drop_last() =~= s@.take(i as int));
            assert(s@.take(i + 1).last() == s@[i as int]);
            assert(out@ =~= html_escaped(s@.take(i + 1)));
        }
        i = i + 1;
    }
    proof {
        assert(s@.take(n as int) =~= s@);
    }
    out
}

/// One token as the chat-side listing shows it: the token text, its
/// optional name and issuer, and the three timestamps already rendered to
/// text by the caller.
pub struct TokenDisplay {
    pub token: String,
    pub name: Option<String>,
    pub issuer_name: Option<String>,
    pub issuer_user_id: Option<i64>,
    pub issued: String,
    pub last_used: Option<String>,
    pub revoked: Option<String>,
}

/// Mathematical image of a [`TokenDisplay`].
pub ghost struct TokenDisplayView {
    pub token: Seq<char>,
    pub name: Option<Seq<char>>,
    pub issuer_name: Option<Seq<char>>,
    pub issuer_user_id: Option<int>,
    pub issued: Seq<char>,
    pub last_used: Option<Seq<char>>,
    pub revoked: Option<Seq<char>>,
}

impl View for TokenDisplay {
    type V = TokenDisplayView;

    open spec fn view(&self) -> TokenDisplayView {
        TokenDisplayView {
            token: self.token@,
            name: match self.name {
                Some(n) => Some(n@),
                None => None,
            },
            issuer_name: match self.issuer_name {
                Some(n) => Some(n@),
                None => None,
            },
            issuer_user_id: match self.issuer_user_id {
                Some(u) => Some(u as int),
                None => None,
            },
            issued: self.issued@,
            last_used: match self.last_used {
                Some(t) => Some(t@),
                None => None,
            },
            revoked: match self.revoked {
                Some(t) => Some(t@),
                None => None,
            },
        }
    }
}

impl DeepView for TokenDisplay {
    type V = TokenDisplayView;

    open spec fn deep_view(&self) -> TokenDisplayView {
        self.view()
    }
}

/// The optional "name:" line of a listing block.
pub open spec fn name_line(name: Option<Seq<char>>) -> Seq<char> {
    match name {
        Some(n) => "name: "@ + html_escaped(n) + "\n"@,
        None => Seq::empty(),
    }
}

/// The optional "issued by:" line of a listing block.
pub open spec fn issuer_line(name: Option<Seq<char>>, user_id: Option<int>) -> Seq<char> {
    match name {
        Some(n) => match user_id {
            Some(u) => "issued by: "@ + html_escaped(n) + " ("@ + crate::numtext::dec_int(u)
                + ")\n"@,
            None => "issued by: "@ + html_escaped(n) + "\n"@,
        },
        None => match user_id {
            Some(u) => "issued by: "@ + crate::numtext::dec_int(u) + "\n"@,
            None => Seq::empty(),
        },
    }
}

/// One token's listing block.
pub open spec fn token_block(t: TokenDisplayView) -> Seq<char> {
    "<code>"@ + t.token + "</code>\n"@ + name_line(t.name) + issuer_line(
        t.issuer_name,
        t.issuer_user_id,
    ) + "issued: "@ + t.issued + "\nlast used: "@ + (match t.last_used {
        Some(x) => x,
        None => "never"@,
    }) + "\nrevoked: "@ + (match t.revoked {
        Some(x) => x,
        None => "not revoked"@,
    })
}

/// The listing blocks, blank-line separated.
pub open spec fn token_blocks(ts: Seq<TokenDisplayView>) -> Seq<char>
    decreases ts.len(),
{
    if ts.len() == 0 {
        Seq::empty()
    } else if ts.len() == 1 {
        token_block(ts[0])
    } else {
        token_block(ts[0]) + "\n\n"@ + token_blocks(ts.skip(1))
    }
}

proof fn lemma_token_blocks_push(ts: Seq<TokenDisplayView>, t: TokenDisplayView)
    ensures
        token_blocks(ts.push(t)) == if ts.len() == 0 {
            token_block(t)
        } else {
            token_blocks(ts) + "\n\n"@ + token_block(t)
        },
    decreases ts.len(),
{
    let w = ts.push(t);
    if ts.len() == 0 {
        assert(w.len() == 1);
        assert(w[0] == t);
    } else {
        assert(w.skip(1) =~= ts.skip(1).push(t));
        lemma_token_blocks_push(ts.skip(1), t);
        if ts.len() == 1 {
            assert(token_blocks(w) == token_block(w[0]) + "\n\n"@ + token_blocks(w.skip(1)));
            assert(token_blocks(w.skip(1)) == token_block(t));
            assert(token_blocks(ts) == token_block(ts[0]));
            assert(token_blocks(w) =~= token_blocks(ts) + "\n\n"@ + token_block(t));
        } else {
            assert(token_blocks(w) == token_block(w[0]) + "\n\n"@ + token_blocks(w.skip(1)));
            assert(token_blocks(w) =~= token_blocks(ts) + "\n\n"@ + token_block(t));
        }
    }
}

/// The optional "name:" line, rendered.
fn render_name_line(name: &Option<String>) -> (r: String)
    ensures
        r@ == name_line(match name {
            Some(n) => Some(n@),
            None => None,
        }),
{
    let mut s = String::new();
    match name {
        Some(n) => {
            s.append("name: ");
            s.append(html_escape(n.as_str()).as_str());
            s.append("\n");
        },
        None => {},
    }
    s
}

/// The optional "issued by:" line, rendered.
fn render_issuer_line(name: &Option<String>, user_id: Option<i64>) -> (r: String)
    ensures
        r@ == issuer_line(
            match name {
                Some(n) => Some(n@),
                None => None,
            },
            match user_id {
                Some(u) => Some(u as int),
                None => None,
            },
        ),
{
    let mut s = String::new();
    match name {
        Some(n) => {
            s.append("issued by: ");
            s.append(html_escape(n.as_str()).as_str());
            match user_id {
                Some(u) => {
                    s.append(" (");
                    s.append(crate::numtext::fmt_i64(u).as_str());
                    s.append(")\n");
                },
                None => {
                    s.append("\n");
                },
            }
        },
        None => {
            match user_id {
                Some(u) => {
                    s.append("issued by: ");
                    s.append(crate::numtext::fmt_i64(u).as_str());
                    s.append("\n");
                },
                None => {},
            }
        },
    }
    s
}

/// One token's listing block, rendered.
fn render_token_block(e: &TokenDisplay) -> (r: String)
    ensures
        r@ == token_block(e@),
{
    let mut s = String::new();
    s.append("<code>");
    s.append(e.token.as_str());
    s.append("</code>\n");
    s.append(render_name_line(&e.name).as_str());
    s.append(render_issuer_line(&e.issuer_name, e.issuer_user_id).as_str());
    s.append("issued: ");
    s.append(e.issued.as_str());
    s.append("\nlast used: ");
    match &e.last_used {
        Some(t) => {
            s.append(t.as_str());
        },
        None => {
            s.append("never");
        },
    }
    s.append("\nrevoked: ");
    match &e.revoked {
        Some(t) => {
            s.append(t.as_str());
        },
        None => {
            s.append("not revoked");
        },
    }
    s
}

/// Render the chat-side token listing: a heading, then one block per
/// token with its name, issuer and rendered timestamps; absent timestamps
/// show as "never" and "not revoked".
pub fn format_token_list(entries: &Vec<TokenDisplay>) -> (r: String)
    ensures
        r@ == "<b>Tokens</b>\n\n"@ + token_blocks(entries.deep_view()),
{
    let ghost all = entries.deep_view();
    let mut out = String::new();
    out.append("<b>Tokens</b>\n\n");
    let mut i: usize = 0;
    proof {
        assert(token_blocks(all.take(0)) =~= Seq::<char>::empty());
        assert(out@ =~= "<b>Tokens</b>\n\n"@ + token_blocks(all.take(0)));
    }
    while i < entries.len()
        invariant
            0 <= i <= entries@.len(),
            entries.deep_view() == all,
            out@ == "<b>Tokens</b>\n\n"@ + token_blocks(all.take(i as int)),
        decreases entries@.len() - i,
    {
        if i > 0 {
            out.append("\n\n");
        }
        let block = render_token_block(&entries[i]);
        out.append(block.as_str());
        proof {
            assert(entries@[i as int]@ == all[i as int]);
            assert(all.take(i + 1) =~= all.take(i as int).push(all[i as int]));
            lemma_token_blocks_push(all.take(i as int), all[i as int]);
            assert(out@ =~= "<b>Tokens</b>\n\n"@ + token_blocks(all.take(i + 1)));
        }
        i = i + 1;
    }
    proof {
        assert(all.take(all.len() as int) =~= all);
    }
    out
}

} // verus!
