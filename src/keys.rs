//! The table of API keys, with its atomic validate-and-increment, and the
//! generation of new secrets.
use vstd::prelude::*;
use crate::models::{ApiKey, ApiKeyInfo, CreateApiKeyResponse};
use crate::text::{push_char, push_str};
use rand::Rng;

verus! {

/// The store could not carry out an operation.
#[derive(Debug, Clone, PartialEq, Eq)]
pub struct StorageFault;

/// No two rows share a secret.
pub open spec fn keys_unique(rows: Seq<ApiKey>) -> bool {
    forall|i: int, j: int|
        0 <= i < rows.len() && 0 <= j < rows.len() && i != j ==> rows[i].key@ != rows[j].key@
}

pub open spec fn has_key(rows: Seq<ApiKey>, key: Seq<char>) -> bool {
    exists|i: int| 0 <= i < rows.len() && rows[i].key@ == key
}

/// The row holding `key`, or `-1` when there is none.
pub open spec fn key_position(rows: Seq<ApiKey>, key: Seq<char>) -> int {
    if has_key(rows, key) {
        choose|i: int| 0 <= i < rows.len() && rows[i].key@ == key
    } else {
        -1
    }
}

/// A row after one more successful authentication at `now`.
pub open spec fn bumped(row: ApiKey, now: i64) -> ApiKey {
    ApiKey { usage_count: (row.usage_count + 1) as i32, updated_at: now, ..row }
}

/// The conditional update "increment usage and return the row only if the key
/// matches and is active", as one step: the table after it, and its answer. A
/// counter that cannot grow any further makes the update fail.
pub open spec fn authenticate_step(rows: Seq<ApiKey>, key: Seq<char>, now: i64) -> (Seq<
    ApiKey,
>, Result<Option<ApiKey>, StorageFault>) {
    let p = key_position(rows, key);
    if p < 0 || !rows[p].is_active {
        (rows, Ok(None))
    } else if rows[p].usage_count == i32::MAX {
        (rows, Err(StorageFault))
    } else {
        (rows.update(p, bumped(rows[p], now)), Ok(Some(bumped(rows[p], now))))
    }
}

/// In-memory table of API keys.
pub struct KeyStore {
    rows: Vec<ApiKey>,
}

impl View for KeyStore {
    type V = Seq<ApiKey>;

    closed spec fn view(&self) -> Seq<ApiKey> {
        self.rows@
    }
}

impl KeyStore {
    pub open spec fn wf(&self) -> bool {
        keys_unique(self@)
    }

    pub fn new() -> (r: KeyStore)
        ensures
            r@ == Seq::<ApiKey>::empty(),
            r.wf(),
    {
        KeyStore { rows: Vec::new() }
    }

    /// Position of the row holding `key`.
    fn position(&self, key: &str) -> (r: Option<usize>)
        requires
            self.wf(),
        ensures
            match r {
                Some(i) => i == key_position(self@, key@),
                None => !has_key(self@, key@),
            },
    {
        let target = key.to_string();
        for i in 0..self.rows.len()
            invariant
                target@ == key@,
                self.wf(),
                forall|j: int| 0 <= j < i ==> self@[j].key@ != key@,
        {
            if self.rows[i].key == target {
                proof {
                    let p = key_position(self@, key@);
                    assert(self@[p].key@ == key@);
                    if p != i {
                        assert(self@[p].key@ != self@[i as int].key@);
                    }
                }
                return Some(i);
            }
        }
        None
    }

    /// Adds a row, unless its secret is already in use.
    pub fn provision(&mut self, row: ApiKey) -> (r: bool)
        requires
            old(self).wf(),
        ensures
            final(self).wf(),
            r == !has_key(old(self)@, row.key@),
            r ==> final(self)@ == old(self)@.push(row),
            !r ==> final(self)@ == old(self)@,
    {
        match self.position(row.key.as_str()) {
            Some(_) => false,
            None => {
                self.rows.push(row);
                true
            },
        }
    }

    /// The row holding `key`, active or not.
    pub fn find(&self, key: &str) -> (r: Option<ApiKey>)
        requires
            self.wf(),
        ensures
            match r {
                Some(row) => has_key(self@, key@) && row == self@[key_position(self@, key@)],
                None => !has_key(self@, key@),
            },
    {
        match self.position(key) {
            Some(i) => Some(self.rows[i].duplicate()),
            None => None,
        }
    }

    /// Atomically: when `key` names an active row, adds one to its usage counter,
    /// stamps it with `now`, and returns it; otherwise changes nothing.
    pub fn find_and_increment_active(&mut self, key: &str, now: i64) -> (r: Result<Option<ApiKey>, StorageFault>)
        requires
            old(self).wf(),
        ensures
            final(self).wf(),
            (final(self)@, r) == authenticate_step(old(self)@, key@, now),
    {
        match self.position(key) {
            None => Ok(None),
            Some(i) => {
                if !self.rows[i].is_active {
                    Ok(None)
                } else if self.rows[i].usage_count == i32::MAX {
                    Err(StorageFault)
                } else {
                    let ghost before = self@;
                    let count = self.rows[i].usage_count;
                    self.rows[i].usage_count = count + 1;
                    self.rows[i].updated_at = now;
                    proof {
                        assert(self@ =~= before.update(i as int, bumped(before[i as int], now)));
                        assert forall|a: int, b: int|
                            0 <= a < self@.len() && 0 <= b < self@.len() && a != b implies self@[a].key@
                            != self@[b].key@ by {
                            assert(self@[a].key@ == before[a].key@);
                            assert(self@[b].key@ == before[b].key@);
                        }
                    }
                    Ok(Some(self.rows[i].duplicate()))
                }
            },
        }
    }
}

/// Two authentications with the same valid key both succeed, and its usage
/// counter grows by exactly two: no update is lost and none is counted twice.
/// Every other row stays as it was.
pub proof fn lemma_two_authentications_count_twice(rows: Seq<ApiKey>, key: Seq<char>, t1: i64, t2: i64)
    requires
        keys_unique(rows),
        has_key(rows, key),
        rows[key_position(rows, key)].is_active,
        rows[key_position(rows, key)].usage_count <= i32::MAX - 2,
    ensures
        ({
            let p = key_position(rows, key);
            let (rows1, first) = authenticate_step(rows, key, t1);
            let (rows2, second) = authenticate_step(rows1, key, t2);
            &&& first is Ok && first->Ok_0 is Some
            &&& second is Ok && second->Ok_0 is Some
            &&& rows2.len() == rows.len()
            &&& rows2[p].usage_count == rows[p].usage_count + 2
            &&& forall|i: int| 0 <= i < rows.len() && i != p ==> rows2[i] == rows[i]
        }),
{
    let p = key_position(rows, key);
    let rows1 = authenticate_step(rows, key, t1).0;
    assert(rows1[p].key@ == key);
    assert(has_key(rows1, key));
    let q = key_position(rows1, key);
    if q != p {
        assert(rows1[q] == rows[q]);
    }
    assert(q == p);
}

/// The letters and digits that a generated secret is made of.
pub open spec fn secret_char(c: char) -> bool {
    ('A' <= c && c <= 'Z') || ('a' <= c && c <= 'z') || ('0' <= c && c <= '9')
}

/// Number of random characters in a generated secret, after its `sk_` prefix.
pub const KEY_LEN: usize = 32;

/// Number of distinct characters a secret draws from.
pub const CHARSET_LEN: usize = 62;

/// The `i`-th character of the secret alphabet `A-Z`, `a-z`, `0-9`, in that order.
pub open spec fn charset_spec(i: int) -> char {
    if i < 26 {
        ((i + 65) as u8) as char
    } else if i < 52 {
        ((i + 71) as u8) as char
    } else {
        ((i - 4) as u8) as char
    }
}

/// Indices that can stand for the random draws of one secret.
pub open spec fn valid_draws(idx: Seq<usize>) -> bool {
    idx.len() == KEY_LEN && forall|i: int| 0 <= i < idx.len() ==> #[trigger] idx[i] < CHARSET_LEN
}

/// The secret made of the drawn indices: `sk_` and then one alphabet character per index.
pub open spec fn key_from_indices(idx: Seq<usize>) -> Seq<char> {
    "sk_"@ + idx.map_values(|i: usize| charset_spec(i as int))
}

fn charset_char(i: usize) -> (c: char)
    requires
        i < CHARSET_LEN,
    ensures
        c == charset_spec(i as int),
        secret_char(c),
{
    if i < 26 {
        ((i as u8) + 65) as char
    } else if i < 52 {
        ((i as u8) + 71) as char
    } else {
        ((i as u8) - 4) as char
    }
}

/// Relies on `rand::rng` and `Rng::random_range`: an index drawn uniformly from
/// `0..bound`, which must not be empty.
#[verifier::external_body]
fn random_index(bound: usize) -> (r: usize)
    requires
        bound > 0,
    ensures
        r < bound,
{
    rand::rng().random_range(0..bound)
}

/// The secret for the given draws: `sk_` followed by the alphabet character of each index.
pub fn api_key_from_indices(idx: &Vec<usize>) -> (r: String)
    requires
        valid_draws(idx@),
    ensures
        r@ == key_from_indices(idx@),
        r@.len() == 3 + KEY_LEN,
        r@.take(3) == "sk_"@,
        forall|i: int| 3 <= i < r@.len() ==> secret_char(#[trigger] r@[i]),
{
    let mut key = String::new();
    push_str(&mut key, "sk_");
    proof {
        reveal_strlit("sk_");
    }
    for n in 0..idx.len()
        invariant
            valid_draws(idx@),
            key@ == "sk_"@ + idx@.take(n as int).map_values(|i: usize| charset_spec(i as int)),
            forall|i: int| 3 <= i < key@.len() ==> secret_char(#[trigger] key@[i]),
    {
        let c = charset_char(idx[n]);
        push_char(&mut key, c);
        assert(idx@.take(n + 1).map_values(|i: usize| charset_spec(i as int)) =~= idx@.take(
            n as int,
        ).map_values(|i: usize| charset_spec(i as int)).push(c));
    }
    assert(idx@.take(idx.len() as int) =~= idx@);
    assert(key@.take(3) =~= "sk_"@);
    key
}

/// A fresh secret: `sk_` followed by `KEY_LEN` characters of the alphabet, one
/// per random draw.
pub fn generate_api_key() -> (r: String)
    ensures
        exists|idx: Seq<usize>| valid_draws(idx) && r@ == key_from_indices(idx),
        r@.len() == 3 + KEY_LEN,
        r@.take(3) == "sk_"@,
        forall|i: int| 3 <= i < r@.len() ==> secret_char(#[trigger] r@[i]),
{
    let mut idx: Vec<usize> = Vec::new();
    for n in 0..KEY_LEN
        invariant
            idx@.len() == n,
            forall|i: int| 0 <= i < idx@.len() ==> #[trigger] idx@[i] < CHARSET_LEN,
    {
        idx.push(random_index(CHARSET_LEN));
    }
    api_key_from_indices(&idx)
}

/// What a listing shows of a key.
pub fn key_info(k: &ApiKey) -> (r: ApiKeyInfo)
    ensures
        r.id == k.id,
        r.name@ == k.name@,
        r.usage_count == k.usage_count,
        r.is_active == k.is_active,
        r.created_at == k.created_at,
{
    ApiKeyInfo {
        id: k.id,
        name: k.name.clone(),
        usage_count: k.usage_count,
        is_active: k.is_active,
        created_at: k.created_at,
    }
}

/// What the creator of a key is told: its id, secret and name.
pub fn creation_response(k: &ApiKey) -> (r: CreateApiKeyResponse)
    ensures
        r.id == k.id,
        r.key@ == k.key@,
        r.name@ == k.name@,
{
    CreateApiKeyResponse { id: k.id, key: k.key.clone(), name: k.name.clone() }
}

} // verus!
