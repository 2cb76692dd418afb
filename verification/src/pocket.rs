//! The remote item client's domain: item variants as the remote service
//! reports them, normalization of raw remote records, request building and
//! the retry rule for transient transport failures.

use vstd::prelude::*;
use vstd::string::{StrSliceExecFns, StringExecFns};

use crate::encoding::{dec_chars, form_enc_of, form_urlencode, i64_to_dec_string, push_char, u64_to_dec_string};
use crate::error::Error;

verus! {

/// Number of items requested per page during a sync.
pub const ITEMS_PER_PAGE: u32 = 100;

/// Bound on connection attempts for one remote request.
pub const MAX_FETCH_ATTEMPTS: u32 = 3;

/// The stable identifier the remote service assigns to an item.
#[derive(Clone, Debug)]
pub struct PocketItemId(pub String);

impl View for PocketItemId {
    type V = Seq<char>;

    open spec fn view(&self) -> Seq<char> {
        self.0@
    }
}

impl PocketItemId {
    /// Wraps a raw identifier string.
    pub fn new(id: String) -> (r: Self)
        ensures
            r@ == id@,
    {
        PocketItemId(id)
    }

    /// The raw identifier string.
    pub fn as_str(&self) -> (r: &str)
        ensures
            r@ == self@,
    {
        self.0.as_str()
    }

    /// Whether two identifiers spell the same string.
    pub fn same_as(&self, other: &PocketItemId) -> (r: bool)
        ensures
            r == (self@ == other@),
    {
        self.0.eq(&other.0)
    }
}

/// The remote state of an item.
#[derive(Clone, Copy, Debug, PartialEq, Eq, Structural)]
pub enum PocketItemStatus {
    Unread,
    Archived,
    Deleted,
}

impl PocketItemStatus {
    /// The lower-case name the remote wire format uses.
    pub fn as_str(&self) -> (r: &'static str)
        ensures
            self is Unread ==> r@ == "unread"@,
            self is Archived ==> r@ == "archived"@,
            self is Deleted ==> r@ == "deleted"@,
    {
        match self {
            PocketItemStatus::Unread => "unread",
            PocketItemStatus::Archived => "archived",
            PocketItemStatus::Deleted => "deleted",
        }
    }
}

/// Decodes the remote status code (`"0"`, `"1"`, `"2"`) into a status.
pub fn status_from_remote_code(s: &str) -> (r: Result<PocketItemStatus, Error>)
    ensures
        r is Ok ==> (s@ == "0"@ || s@ == "1"@ || s@ == "2"@),
        s@ == "0"@ ==> r == Ok::<PocketItemStatus, Error>(PocketItemStatus::Unread),
        s@ == "1"@ ==> r == Ok::<PocketItemStatus, Error>(PocketItemStatus::Archived),
        s@ == "2"@ ==> r == Ok::<PocketItemStatus, Error>(PocketItemStatus::Deleted),
        r is Err ==> r.unwrap_err() is Deserialization,
{
    proof {
        reveal_strlit("0");
        reveal_strlit("1");
        reveal_strlit("2");
    }
    if s.unicode_len() == 1 {
        let c = s.get_char(0);
        let code = c as u32;
        if code == 48 {
            proof {
                assert(s@ =~= "0"@);
            }
            return Ok(PocketItemStatus::Unread);
        }
        if code == 49 {
            proof {
                assert(s@ =~= "1"@);
            }
            return Ok(PocketItemStatus::Archived);
        }
        if code == 50 {
            proof {
                assert(s@ =~= "2"@);
            }
            return Ok(PocketItemStatus::Deleted);
        }
    }
    Err(Error::Deserialization(String::from_str("unknown remote item status")))
}

/// A raw remote record, after the wire format was read but before
/// normalization; every field comes straight from the remote payload.
#[derive(Clone, Debug)]
pub struct RemotePocketItem {
    pub item_id: String,
    pub given_url: Option<String>,
    /// Final URL after the remote service resolved shorteners; may be empty.
    pub resolved_url: Option<String>,
    pub given_title: Option<String>,
    pub resolved_title: Option<String>,
    pub status: PocketItemStatus,
    pub excerpt: Option<String>,
    /// Creation instant as a decimal string of epoch seconds.
    pub time_added: Option<String>,
}

/// A normalized remote item: either a live record to upsert, or a removal
/// marker to delete locally.
#[derive(Clone, Debug)]
pub enum PocketItem {
    Unread {
        id: PocketItemId,
        title: String,
        excerpt: String,
        url: String,
        /// Epoch seconds, as the remote service reported them.
        time_added: i64,
    },
    ArchivedOrDeleted { id: PocketItemId, status: PocketItemStatus },
}

/// The model of a normalized remote item.
#[verifier::ext_equal]
pub ghost enum PocketItemModel {
    Unread { id: Seq<char>, title: Seq<char>, excerpt: Seq<char>, url: Seq<char>, time_added: i64 },
    Removed { id: Seq<char>, status: PocketItemStatus },
}

impl View for PocketItem {
    type V = PocketItemModel;

    open spec fn view(&self) -> PocketItemModel {
        match self {
            PocketItem::Unread { id, title, excerpt, url, time_added } => PocketItemModel::Unread {
                id: id@,
                title: title@,
                excerpt: excerpt@,
                url: url@,
                time_added: *time_added,
            },
            PocketItem::ArchivedOrDeleted { id, status } => PocketItemModel::Removed {
                id: id@,
                status: *status,
            },
        }
    }
}

impl PocketItem {
    /// A field-for-field copy.
    pub fn duplicate(&self) -> (r: PocketItem)
        ensures
            r@ == self@,
    {
        match self {
            PocketItem::Unread { id, title, excerpt, url, time_added } => PocketItem::Unread {
                id: PocketItemId(id.0.clone()),
                title: title.clone(),
                excerpt: excerpt.clone(),
                url: url.clone(),
                time_added: *time_added,
            },
            PocketItem::ArchivedOrDeleted { id, status } => PocketItem::ArchivedOrDeleted {
                id: PocketItemId(id.0.clone()),
                status: *status,
            },
        }
    }

    /// The remote identifier, whichever variant this is.
    pub fn id(&self) -> (r: &PocketItemId)
        ensures
            r@ == self.spec_id(),
    {
        match self {
            PocketItem::Unread { id, .. } => id,
            PocketItem::ArchivedOrDeleted { id, .. } => id,
        }
    }

    /// The remote identifier, in specifications.
    pub open spec fn spec_id(&self) -> Seq<char> {
        match self {
            PocketItem::Unread { id, .. } => id@,
            PocketItem::ArchivedOrDeleted { id, .. } => id@,
        }
    }
}

/// One page of a user's remote collection.
#[derive(Clone, Debug)]
pub struct PocketPage {
    pub items: Vec<PocketItem>,
    /// The watermark the remote service returned after serving this page.
    pub since: i64,
}

/// The model of one remote page.
#[verifier::ext_equal]
pub ghost struct PageModel {
    pub items: Seq<PocketItemModel>,
    pub since: i64,
}

impl View for PocketPage {
    type V = PageModel;

    open spec fn view(&self) -> PageModel {
        PageModel { items: self.items@.map_values(|it: PocketItem| it@), since: self.since }
    }
}

impl PocketPage {
    /// A field-for-field copy.
    pub fn duplicate(&self) -> (r: PocketPage)
        ensures
            r@ == self@,
    {
        let mut items: Vec<PocketItem> = Vec::new();
        let mut i: usize = 0;
        while i < self.items.len()
            invariant
                i <= self.items@.len(),
                items@.len() == i,
                forall|j: int| 0 <= j < i ==> #[trigger] items@[j]@ == self.items@[j]@,
            decreases self.items@.len() - i,
        {
            items.push(self.items[i].duplicate());
            i = i + 1;
        }
        let r = PocketPage { items, since: self.since };
        proof {
            assert(r@.items =~= self@.items);
            assert(r@ =~= self@);
        }
        r
    }
}

/// Which item states a retrieve call asks for.
#[derive(Clone, Copy, Debug, PartialEq, Eq, Structural)]
pub enum PocketRetrieveItemState {
    Unread,
    Archive,
    All,
}

impl PocketRetrieveItemState {
    /// The lower-case name the remote wire format uses.
    pub fn as_str(&self) -> (r: &'static str)
        ensures
            r@ == self.spec_str(),
    {
        match self {
            PocketRetrieveItemState::Unread => "unread",
            PocketRetrieveItemState::Archive => "archive",
            PocketRetrieveItemState::All => "all",
        }
    }

    /// The wire name, in specifications.
    pub open spec fn spec_str(&self) -> Seq<char> {
        match self {
            PocketRetrieveItemState::Unread => "unread"@,
            PocketRetrieveItemState::Archive => "archive"@,
            PocketRetrieveItemState::All => "all"@,
        }
    }
}

/// The caller-facing filter for one retrieve call.
#[derive(Clone, Debug)]
pub struct PocketRetrieveQuery {
    pub state: Option<PocketRetrieveItemState>,
    pub search: Option<String>,
    pub count: Option<u32>,
    pub offset: Option<u32>,
    /// Return only items changed at or after this watermark.
    pub since: Option<i64>,
}

/// The model of one retrieve query, as handed to the remote client.
#[verifier::ext_equal]
pub ghost struct QueryModel {
    pub state: Option<PocketRetrieveItemState>,
    pub search: Option<Seq<char>>,
    pub count: Option<u32>,
    pub offset: Option<u32>,
    pub since: Option<i64>,
}

impl View for PocketRetrieveQuery {
    type V = QueryModel;

    open spec fn view(&self) -> QueryModel {
        QueryModel {
            state: self.state,
            search: opt_str_view(self.search),
            count: self.count,
            offset: self.offset,
            since: self.since,
        }
    }
}

impl PocketRetrieveQuery {
    /// A field-for-field copy.
    pub fn duplicate(&self) -> (r: PocketRetrieveQuery)
        ensures
            r@ == self@,
    {
        PocketRetrieveQuery {
            state: self.state,
            search: clone_opt(&self.search),
            count: self.count,
            offset: self.offset,
            since: self.since,
        }
    }
}

impl Default for PocketRetrieveQuery {
    /// An unconstrained query: every field unset.
    fn default() -> (r: Self)
        ensures
            r.state is None,
            r.search is None,
            r.count is None,
            r.offset is None,
            r.since is None,
    {
        PocketRetrieveQuery { state: None, search: None, count: None, offset: None, since: None }
    }
}

// ---------------------------------------------------------------------------
// Timestamp parsing
// ---------------------------------------------------------------------------
/// A decimal digit.
pub open spec fn is_dig(c: char) -> bool {
    48 <= c as int <= 57
}

/// The value of one digit character.
pub open spec fn dig_val(c: char) -> int {
    c as int - 48
}

/// Every character is a digit.
pub open spec fn all_digits(s: Seq<char>) -> bool {
    forall|i: int| 0 <= i < s.len() ==> is_dig(s[i])
}

/// The number spelled by a digit string, most significant digit first.
pub open spec fn digits_val(s: Seq<char>) -> int
    decreases s.len(),
{
    if s.len() == 0 {
        0
    } else {
        digits_val(s.drop_last()) * 10 + dig_val(s.last())
    }
}

/// Whether the string starts with an explicit sign.
pub open spec fn has_sign(s: Seq<char>) -> bool {
    s.len() > 0 && (s[0] == '-' || s[0] == '+')
}

/// The digit portion, after any sign.
pub open spec fn digits_part(s: Seq<char>) -> Seq<char> {
    if has_sign(s) {
        s.subrange(1, s.len() as int)
    } else {
        s
    }
}

/// Whether the string is negative.
pub open spec fn is_negative(s: Seq<char>) -> bool {
    s.len() > 0 && s[0] == '-'
}

/// Whether the string spells an `i64`: optional sign, at least one digit,
/// and a magnitude within range.
pub open spec fn i64_str_valid(s: Seq<char>) -> bool {
    &&& digits_part(s).len() > 0
    &&& all_digits(digits_part(s))
    &&& (if is_negative(s) {
        digits_val(digits_part(s)) <= 0x8000_0000_0000_0000
    } else {
        digits_val(digits_part(s)) <= 0x7fff_ffff_ffff_ffff
    })
}

/// The value an `i64` string spells.
pub open spec fn i64_str_val(s: Seq<char>) -> int {
    if is_negative(s) {
        -digits_val(digits_part(s))
    } else {
        digits_val(digits_part(s))
    }
}

proof fn lemma_digits_val_nonneg(s: Seq<char>)
    requires
        all_digits(s),
    ensures
        digits_val(s) >= 0,
    decreases s.len(),
{
    if s.len() > 0 {
        assert(all_digits(s.drop_last()));
        lemma_digits_val_nonneg(s.drop_last());
    }
}

proof fn lemma_digits_val_prefix_le(s: Seq<char>, k: int)
    requires
        all_digits(s),
        0 <= k <= s.len(),
    ensures
        digits_val(s.subrange(0, k)) <= digits_val(s),
    decreases s.len() - k,
{
    if k < s.len() {
        let t = s.subrange(0, k + 1);
        assert(t.drop_last() =~= s.subrange(0, k));
        assert(all_digits(s.subrange(0, k)));
        lemma_digits_val_nonneg(s.subrange(0, k));
        assert(digits_val(t) == digits_val(s.subrange(0, k)) * 10 + dig_val(s[k]));
        assert(digits_val(s.subrange(0, k)) <= digits_val(t)) by {
            assert(digits_val(s.subrange(0, k)) * 10 >= digits_val(s.subrange(0, k))) by (
            nonlinear_arith)
                requires
                    digits_val(s.subrange(0, k)) >= 0,
            ;
        }
        lemma_digits_val_prefix_le(s, k + 1);
    } else {
        assert(s.subrange(0, k) =~= s);
    }
}

/// Parses a decimal `i64`, accepting an optional leading `+` or `-` sign
/// followed by one or more digits, exactly when the value fits.
pub fn parse_i64(s: &str) -> (r: Result<i64, Error>)
    ensures
        r is Ok <==> i64_str_valid(s@),
        r is Ok ==> r.unwrap() as int == i64_str_val(s@),
        r is Err ==> r.unwrap_err() is Deserialization,
{
    let n = s.unicode_len();
    let mut start: usize = 0;
    let mut neg = false;
    if n > 0 {
        let c0 = s.get_char(0);
        let u0 = c0 as u32;
        if u0 == 45 {  // '-'
            neg = true;
            start = 1;
        } else if u0 == 43 {  // '+'
            start = 1;
        }
    }
    if start >= n {
        // No digits at all.
        return Err(Error::Deserialization(String::from_str("empty number")));
    }
    let ghost ds = digits_part(s@);
    proof {
        assert(ds =~= s@.subrange(start as int, n as int));
        assert(neg == is_negative(s@));
    }
    let limit: u64 = if neg {
        0x8000_0000_0000_0000u64
    } else {
        0x7fff_ffff_ffff_ffffu64
    };
    let mut acc: u64 = 0;
    let mut i: usize = start;
    while i < n
        invariant
            start <= i <= n,
            n == s@.len(),
            start < n,
            ds == digits_part(s@),
            ds == s@.subrange(start as int, n as int),
            all_digits(s@.subrange(start as int, i as int)),
            acc as int == digits_val(s@.subrange(start as int, i as int)),
            acc <= limit,
            limit == (if neg {
                0x8000_0000_0000_0000u64
            } else {
                0x7fff_ffff_ffff_ffffu64
            }),
            neg == is_negative(s@),
        decreases n - i,
    {
        let c = s.get_char(i);
        let cu = c as u32;
        if cu < 48 || cu > 57 {
            proof {
                let j = i as int - start as int;
                assert(ds[j] == s@[i as int]);
                assert(!is_dig(ds[j]));
                if i64_str_valid(s@) {
                    assert(is_dig(digits_part(s@)[j]));
                    assert(false);
                }
            }
            return Err(Error::Deserialization(String::from_str("not a number")));
        }
        let d: u64 = (cu - 48) as u64;
        let t: u128 = acc as u128 * 10 + d as u128;
        proof {
            let pre = s@.subrange(start as int, i as int);
            let ext = s@.subrange(start as int, i + 1);
            assert(ext.drop_last() =~= pre);
            assert(ext.last() == s@[i as int]);
            assert(digits_val(ext) == digits_val(pre) * 10 + dig_val(s@[i as int]));
        }
        if t > limit as u128 {
            // The full digit string can only be larger.
            proof {
                if i64_str_valid(s@) {
                    let k = i + 1 - start as int;
                    assert(all_digits(ds));
                    assert(ds.subrange(0, k) =~= s@.subrange(start as int, i + 1));
                    lemma_digits_val_prefix_le(ds, k);
                    assert(digits_val(s@.subrange(start as int, i + 1)) == t as int);
                    assert(digits_val(ds) > limit as int);
                    assert(false);
                }
            }
            return Err(Error::Deserialization(String::from_str("number out of range")));
        }
        acc = t as u64;
        i = i + 1;
    }
    proof {
        assert(s@.subrange(start as int, i as int) =~= ds);
    }
    if neg {
        if acc == 0x8000_0000_0000_0000u64 {
            Ok(i64::MIN)
        } else {
            Ok(-(acc as i64))
        }
    } else {
        Ok(acc as i64)
    }
}

// ---------------------------------------------------------------------------
// Normalization
// ---------------------------------------------------------------------------
/// The view of an optional string.
pub open spec fn opt_str_view(o: Option<String>) -> Option<Seq<char>> {
    match o {
        Some(s) => Some(s@),
        None => None,
    }
}

/// The first choice when it is present and non-empty, else the second.
pub open spec fn nonempty_or(a: Option<Seq<char>>, b: Option<Seq<char>>) -> Option<Seq<char>> {
    match a {
        Some(s) => if s.len() > 0 {
            a
        } else {
            b
        },
        None => b,
    }
}

/// The string when present and non-empty, else the empty string.
pub open spec fn nonempty_or_empty(o: Option<Seq<char>>) -> Seq<char> {
    match o {
        Some(s) => if s.len() > 0 {
            s
        } else {
            Seq::empty()
        },
        None => Seq::empty(),
    }
}

/// The string when present, else the empty string.
pub open spec fn str_or_empty(o: Option<Seq<char>>) -> Seq<char> {
    match o {
        Some(s) => s,
        None => Seq::empty(),
    }
}

/// The normalized URL: the resolved URL when non-empty, else the given URL.
pub open spec fn best_url_spec(resolved: Option<Seq<char>>, given: Option<Seq<char>>) -> Option<
    Seq<char>,
> {
    nonempty_or(resolved, given)
}

/// The normalized title: the resolved title when non-empty, else the given
/// title when non-empty, else the normalized URL, else empty.
pub open spec fn best_title_spec(
    resolved_title: Option<Seq<char>>,
    given_title: Option<Seq<char>>,
    best_url: Option<Seq<char>>,
) -> Seq<char> {
    nonempty_or_empty(nonempty_or(nonempty_or(resolved_title, given_title), best_url))
}

/// Picks the first option when present and non-empty, else the second.
fn choose_nonempty(first: &Option<String>, second: &Option<String>) -> (r: Option<String>)
    ensures
        opt_str_view(r) == nonempty_or(opt_str_view(*first), opt_str_view(*second)),
{
    match first {
        Some(s) => {
            if !s.as_str().is_empty() {
                Some(s.clone())
            } else {
                clone_opt(second)
            }
        },
        None => clone_opt(second),
    }
}

/// Clones an optional string.
fn clone_opt(o: &Option<String>) -> (r: Option<String>)
    ensures
        opt_str_view(r) == opt_str_view(*o),
{
    match o {
        Some(s) => Some(s.clone()),
        None => None,
    }
}

/// The string when present and non-empty, else an empty string.
fn nonempty_or_empty_exec(o: Option<String>) -> (r: String)
    ensures
        r@ == nonempty_or_empty(opt_str_view(o)),
{
    match o {
        Some(s) => {
            if !s.as_str().is_empty() {
                s
            } else {
                String::new()
            }
        },
        None => String::new(),
    }
}

/// The string when present, else an empty string.
fn str_or_empty_exec(o: Option<String>) -> (r: String)
    ensures
        r@ == str_or_empty(opt_str_view(o)),
{
    match o {
        Some(s) => s,
        None => String::new(),
    }
}

impl PocketItem {
    /// Normalizes a raw remote record.
    ///
    /// A record whose status is archived or deleted becomes a removal marker.
    /// Otherwise the title falls back from resolved title to given title to
    /// the normalized URL to empty, the URL falls back from resolved to
    /// given, and the creation instant must parse from the remote decimal
    /// timestamp; a missing or unparsable timestamp fails normalization.
    pub fn from_remote(remote: RemotePocketItem) -> (r: Result<PocketItem, Error>)
        ensures
            (remote.status is Archived || remote.status is Deleted) ==> (r
                matches Ok(PocketItem::ArchivedOrDeleted { id, status }) && id@ == remote.item_id@
                && status == remote.status),
            remote.status is Unread ==> (match opt_str_view(remote.time_added) {
                None => r is Err,
                Some(t) => if i64_str_valid(t) {
                    r matches Ok(PocketItem::Unread { id, title, excerpt, url, time_added })
                        && id@ == remote.item_id@ && title@ == best_title_spec(
                        opt_str_view(remote.resolved_title),
                        opt_str_view(remote.given_title),
                        best_url_spec(
                            opt_str_view(remote.resolved_url),
                            opt_str_view(remote.given_url),
                        ),
                    ) && excerpt@ == str_or_empty(opt_str_view(remote.excerpt)) && url@
                        == str_or_empty(
                        best_url_spec(
                            opt_str_view(remote.resolved_url),
                            opt_str_view(remote.given_url),
                        ),
                    ) && time_added as int == i64_str_val(t)
                } else {
                    r is Err
                },
            }),
            r is Err ==> r.unwrap_err() is Deserialization,
    {
        if matches!(remote.status, PocketItemStatus::Archived | PocketItemStatus::Deleted) {
            return Ok(
                PocketItem::ArchivedOrDeleted {
                    id: PocketItemId(remote.item_id),
                    status: remote.status,
                },
            );
        }
        let best_url = choose_nonempty(&remote.resolved_url, &remote.given_url);
        let titled = choose_nonempty(&remote.resolved_title, &remote.given_title);
        let titled = choose_nonempty(&titled, &best_url);
        let title = nonempty_or_empty_exec(titled);
        let time_added = match &remote.time_added {
            None => {
                return Err(
                    Error::Deserialization(String::from_str("no time_added in remote item")),
                );
            },
            Some(t) => parse_i64(t.as_str())?,
        };
        Ok(
            PocketItem::Unread {
                id: PocketItemId(remote.item_id),
                title,
                excerpt: str_or_empty_exec(remote.excerpt),
                url: str_or_empty_exec(best_url),
                time_added,
            },
        )
    }
}

// ---------------------------------------------------------------------------
// Credentials
// ---------------------------------------------------------------------------
/// The application's credentials for the remote item service.
#[derive(Clone, Debug)]
pub struct PocketManager {
    consumer_key: String,
}

/// One user's credentials for the remote item service.
#[derive(Clone, Debug)]
pub struct UserPocketManager {
    pub consumer_key: String,
    pub user_access_token: String,
}

impl PocketManager {
    /// A manager holding the application's consumer key.
    pub fn new(consumer_key: String) -> (r: PocketManager)
        ensures
            r.spec_consumer_key() == consumer_key@,
    {
        PocketManager { consumer_key }
    }

    /// The consumer key, in specifications.
    pub closed spec fn spec_consumer_key(&self) -> Seq<char> {
        self.consumer_key@
    }

    /// The credentials for one user.
    pub fn for_user(&self, user_access_token: &str) -> (r: UserPocketManager)
        ensures
            r.consumer_key@ == self.spec_consumer_key(),
            r.user_access_token@ == user_access_token@,
    {
        UserPocketManager {
            consumer_key: self.consumer_key.clone(),
            user_access_token: user_access_token.to_owned(),
        }
    }
}

impl UserPocketManager {
    /// The resolved request parameters for one retrieve call by this user.
    pub fn retrieve_request(&self, query: &PocketRetrieveQuery) -> (r: PocketRetrieveItemRequest)
        ensures
            r.consumer_key@ == self.consumer_key@,
            r.user_access_token@ == self.user_access_token@,
            r.state == query.state,
            opt_str_view(r.search) == opt_str_view(query.search),
            r.since == query.since,
            r.count == query.count,
            r.offset == query.offset,
    {
        PocketRetrieveItemRequest {
            consumer_key: self.consumer_key.clone(),
            user_access_token: self.user_access_token.clone(),
            state: query.state,
            search: clone_opt(&query.search),
            since: query.since,
            count: query.count,
            offset: query.offset,
        }
    }
}

// ---------------------------------------------------------------------------
// Request building
// ---------------------------------------------------------------------------
/// The fully resolved parameters of one retrieve request: the caller's query
/// plus the credentials.
#[derive(Clone, Debug)]
pub struct PocketRetrieveItemRequest {
    pub consumer_key: String,
    pub user_access_token: String,
    pub state: Option<PocketRetrieveItemState>,
    pub search: Option<String>,
    pub since: Option<i64>,
    pub count: Option<u32>,
    pub offset: Option<u32>,
}

/// The URL of a retrieve request: the fixed endpoint, the form-urlencoded
/// credentials, then one `&name=value` pair per set field, in the order
/// state, search, since, count, offset.
pub open spec fn spec_retrieve_url(req: PocketRetrieveItemRequest) -> Seq<char> {
    "https://getpocket.com/v3/get?consumer_key="@ + form_enc_of(req.consumer_key@)
        + "&access_token="@ + form_enc_of(req.user_access_token@) + (match req.state {
        Some(st) => "&state="@ + st.spec_str(),
        None => Seq::empty(),
    }) + (match req.search {
        Some(s) => "&search="@ + form_enc_of(s@),
        None => Seq::empty(),
    }) + (match req.since {
        Some(v) => "&since="@ + dec_chars(v as int),
        None => Seq::empty(),
    }) + (match req.count {
        Some(v) => "&count="@ + dec_chars(v as int),
        None => Seq::empty(),
    }) + (match req.offset {
        Some(v) => "&offset="@ + dec_chars(v as int),
        None => Seq::empty(),
    })
}

/// Builds the URL of a retrieve request.
#[verifier::rlimit(80)]
pub fn build_pocket_retrieve_url(req: &PocketRetrieveItemRequest) -> (r: String)
    ensures
        r@ == spec_retrieve_url(*req),
{
    let mut url = String::from_str("https://getpocket.com/v3/get?consumer_key=");
    url.append(form_urlencode(req.consumer_key.as_str()).as_str());
    url.append("&access_token=");
    url.append(form_urlencode(req.user_access_token.as_str()).as_str());
    match &req.state {
        Some(st) => {
            url.append("&state=");
            url.append(st.as_str());
        },
        None => {},
    }
    match &req.search {
        Some(s) => {
            url.append("&search=");
            url.append(form_urlencode(s.as_str()).as_str());
        },
        None => {},
    }
    match &req.since {
        Some(v) => {
            url.append("&since=");
            url.append(i64_to_dec_string(*v).as_str());
        },
        None => {},
    }
    match &req.count {
        Some(v) => {
            url.append("&count=");
            url.append(u64_to_dec_string(*v as u64).as_str());
        },
        None => {},
    }
    match &req.offset {
        Some(v) => {
            url.append("&offset=");
            url.append(u64_to_dec_string(*v as u64).as_str());
        },
        None => {},
    }
    proof {
        assert(url@ =~= spec_retrieve_url(*req));
    }
    url
}


// ---------------------------------------------------------------------------
// Modify requests
// ---------------------------------------------------------------------------
/// One state-changing action for the remote service.
#[derive(Clone, Debug)]
pub enum ModifyAction {
    Archive { item_id: PocketItemId },
    Delete { item_id: PocketItemId },
    Favorite { item_id: PocketItemId },
}

impl ModifyAction {
    /// The wire name of the action.
    pub open spec fn spec_name(&self) -> Seq<char> {
        match self {
            ModifyAction::Archive { .. } => "archive"@,
            ModifyAction::Delete { .. } => "delete"@,
            ModifyAction::Favorite { .. } => "favorite"@,
        }
    }

    /// The item the action names.
    pub open spec fn spec_item_id(&self) -> Seq<char> {
        match self {
            ModifyAction::Archive { item_id } => item_id@,
            ModifyAction::Delete { item_id } => item_id@,
            ModifyAction::Favorite { item_id } => item_id@,
        }
    }

    /// The wire name of the action.
    pub fn name(&self) -> (r: &'static str)
        ensures
            r@ == self.spec_name(),
    {
        match self {
            ModifyAction::Archive { .. } => "archive",
            ModifyAction::Delete { .. } => "delete",
            ModifyAction::Favorite { .. } => "favorite",
        }
    }

    /// The item the action names.
    pub fn item_id(&self) -> (r: &PocketItemId)
        ensures
            r@ == self.spec_item_id(),
    {
        match self {
            ModifyAction::Archive { item_id } => item_id,
            ModifyAction::Delete { item_id } => item_id,
            ModifyAction::Favorite { item_id } => item_id,
        }
    }
}

/// A lower-case hexadecimal digit character.
pub open spec fn hex_lower_char(n: int) -> char
    recommends
        0 <= n < 16,
{
    if n < 10 {
        ((48 + n) as u8) as char
    } else {
        ((87 + n) as u8) as char
    }
}

/// The JSON escaping of one character: quotes and backslashes get a
/// backslash, the named control characters their short escapes, the other
/// controls a `\u00XX` escape, and everything else stands as itself.
pub open spec fn json_esc_char(c: char) -> Seq<char> {
    if c == '"' {
        seq!['\\', '"']
    } else if c == '\\' {
        seq!['\\', '\\']
    } else if c as int == 8 {
        seq!['\\', 'b']
    } else if c as int == 9 {
        seq!['\\', 't']
    } else if c as int == 10 {
        seq!['\\', 'n']
    } else if c as int == 12 {
        seq!['\\', 'f']
    } else if c as int == 13 {
        seq!['\\', 'r']
    } else if (c as int) < 32 {
        seq!['\\', 'u', '0', '0', hex_lower_char((c as int) / 16), hex_lower_char((c as int) % 16)]
    } else {
        seq![c]
    }
}

/// The JSON escaping of a string.
pub open spec fn json_esc(s: Seq<char>) -> Seq<char>
    decreases s.len(),
{
    if s.len() == 0 {
        Seq::empty()
    } else {
        json_esc(s.drop_last()) + json_esc_char(s.last())
    }
}

/// Appends the JSON escaping of `s` to `out`.
fn json_escape_into(s: &str, out: &mut String)
    ensures
        final(out)@ == old(out)@ + json_esc(s@),
{
    let n = s.unicode_len();
    let mut i: usize = 0;
    while i < n
        invariant
            i <= n,
            n == s@.len(),
            out@ == old(out)@ + json_esc(s@.subrange(0, i as int)),
        decreases n - i,
    {
        let ghost prefix = s@.subrange(0, i as int);
        let ghost ext = s@.subrange(0, i + 1);
        let c = s.get_char(i);
        let code = c as u32;
        if code == 34 {
            out.append("\\\"");
        } else if code == 92 {
            out.append("\\\\");
        } else if code == 8 {
            out.append("\\b");
        } else if code == 9 {
            out.append("\\t");
        } else if code == 10 {
            out.append("\\n");
        } else if code == 12 {
            out.append("\\f");
        } else if code == 13 {
            out.append("\\r");
        } else if code < 32 {
            out.append("\\u00");
            let hi = (code / 16) as u8;
            let lo = (code % 16) as u8;
            push_char(out, (if hi < 10 { 48 + hi } else { 87 + hi }) as char);
            push_char(out, (if lo < 10 { 48 + lo } else { 87 + lo }) as char);
        } else {
            push_char(out, c);
        }
        proof {
            reveal_strlit("\\\"");
            reveal_strlit("\\\\");
            reveal_strlit("\\b");
            reveal_strlit("\\t");
            reveal_strlit("\\n");
            reveal_strlit("\\f");
            reveal_strlit("\\r");
            reveal_strlit("\\u00");
            assert(ext.drop_last() =~= prefix);
            assert(ext.last() == c);
            assert(out@ =~= old(out)@ + json_esc(ext));
        }
        i = i + 1;
    }
    proof {
        assert(s@.subrange(0, n as int) =~= s@);
    }
}

/// The JSON object of one action.
pub open spec fn spec_action_json(a: ModifyAction) -> Seq<char> {
    "{\"action\":\""@ + a.spec_name() + "\",\"item_id\":\""@ + json_esc(a.spec_item_id())
        + "\"}"@
}

/// The JSON array of a run of actions, comma separated.
pub open spec fn spec_actions_json_items(actions: Seq<ModifyAction>) -> Seq<char>
    decreases actions.len(),
{
    if actions.len() == 0 {
        Seq::empty()
    } else if actions.len() == 1 {
        spec_action_json(actions[0])
    } else {
        spec_actions_json_items(actions.drop_last()) + ","@ + spec_action_json(actions.last())
    }
}

/// The JSON action list a modify request carries.
pub open spec fn spec_actions_json(actions: Seq<ModifyAction>) -> Seq<char> {
    "["@ + spec_actions_json_items(actions) + "]"@
}

/// Builds the JSON action list of a modify request.
pub fn build_modify_actions_json(actions: &Vec<ModifyAction>) -> (r: String)
    ensures
        r@ == spec_actions_json(actions@),
{
    let mut out = String::from_str("[");
    let mut i: usize = 0;
    while i < actions.len()
        invariant
            i <= actions@.len(),
            out@ == "["@ + spec_actions_json_items(actions@.subrange(0, i as int)),
        decreases actions@.len() - i,
    {
        let ghost prefix = actions@.subrange(0, i as int);
        let ghost ext = actions@.subrange(0, i + 1);
        if i > 0 {
            out.append(",");
        }
        let a = &actions[i];
        out.append("{\"action\":\"");
        out.append(a.name());
        out.append("\",\"item_id\":\"");
        json_escape_into(a.item_id().as_str(), &mut out);
        out.append("\"}");
        proof {
            assert(ext.drop_last() =~= prefix);
            assert(ext.last() == actions@[i as int]);
            assert(out@ =~= "["@ + spec_actions_json_items(ext));
        }
        i = i + 1;
    }
    out.append("]");
    proof {
        assert(actions@.subrange(0, actions@.len() as int) =~= actions@);
        assert(out@ =~= spec_actions_json(actions@));
    }
    out
}

/// The parameters of one modify request.
#[derive(Clone, Debug)]
pub struct PocketModifyItemRequest {
    pub consumer_key: String,
    pub user_access_token: String,
    pub actions: Vec<ModifyAction>,
}

/// The URL of a modify request: the fixed endpoint, the form-urlencoded
/// credentials, and the form-urlencoded JSON action list.
pub open spec fn spec_modify_url(req: PocketModifyItemRequest) -> Seq<char> {
    "https://getpocket.com/v3/send?consumer_key="@ + form_enc_of(req.consumer_key@)
        + "&access_token="@ + form_enc_of(req.user_access_token@) + "&actions="@ + form_enc_of(
        spec_actions_json(req.actions@),
    )
}

/// Builds the URL of a modify request.
pub fn build_pocket_modify_url(req: &PocketModifyItemRequest) -> (r: String)
    ensures
        r@ == spec_modify_url(*req),
{
    let mut url = String::from_str("https://getpocket.com/v3/send?consumer_key=");
    url.append(form_urlencode(req.consumer_key.as_str()).as_str());
    url.append("&access_token=");
    url.append(form_urlencode(req.user_access_token.as_str()).as_str());
    url.append("&actions=");
    let json = build_modify_actions_json(&req.actions);
    url.append(form_urlencode(json.as_str()).as_str());
    proof {
        assert(url@ =~= spec_modify_url(*req));
    }
    url
}

// ---------------------------------------------------------------------------
// Retry rule
// ---------------------------------------------------------------------------
/// How one attempt at a remote request ended, as the transport reports it.
#[derive(Clone, Copy, Debug, PartialEq, Eq, Structural)]
pub enum FetchOutcome {
    /// A response arrived with a success status.
    Success,
    /// The connection or the response timed out; assumed transient.
    TimedOut,
    /// Any other transport error or a non-success status; not retried.
    Failed,
}

/// Whether another attempt may be made after `attempts_made` tries.
///
/// Only timeouts are retried, and only while fewer than
/// [`MAX_FETCH_ATTEMPTS`] attempts were made; exceeding the bound surfaces a
/// terminal exhausted-retries error.
pub fn may_retry(attempts_made: u32, outcome: FetchOutcome) -> (r: bool)
    ensures
        r == (outcome is TimedOut && attempts_made < MAX_FETCH_ATTEMPTS),
{
    matches!(outcome, FetchOutcome::TimedOut) && attempts_made < MAX_FETCH_ATTEMPTS
}

} // verus!
