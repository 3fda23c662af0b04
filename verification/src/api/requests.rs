//! What clients ask for, and the bounds on it.
use crate::api::errors::{refused, told, Answer, ApiError, ErrorView};
use crate::board::types::{Side, TaskStatus};
use crate::faucet_pow::{sha256, sha256_digest};
use crate::series::HUB_TRANSACTION_FEE;
use crate::tags::{lemma_names_among, lemma_same_names, Tags};
use crate::text::{
    bytes_view, dec, decimal, decoded_hex, hex_decode, joined, lowercase, quote, quoted, same, to_lowercase, trim,
    trimmed, HexError,
};
use crate::types::{be_value, read_be, Digest, PublicKey};
use vstd::prelude::*;
use vstd::string::*;
use vstd::utf8::encode_utf8;

verus! {

/// How long a claim holds a task, in minutes.
pub const CLAIM_TTL_MINUTES: i64 = 30;

/// The longest window of a task, in minutes: a year.
pub const MAX_CONSENSUS_WINDOW_MINUTES: i64 = 525_600;

/// How many may be assigned to one task.
pub const MAX_CONSENSUS_ASSIGNEES: u32 = 100;

/// How many tasks are listed unless asked otherwise.
pub const DEFAULT_TASKS_PAGE_SIZE: usize = 50;

/// How many tasks are listed at most.
pub const MAX_TASKS_PAGE_SIZE: usize = 200;

/// How long a deposit stays open for funding, in minutes.
pub const ESCROW_RESERVATION_TTL_MINUTES: i64 = 60;

/// How many tags a task may carry.
pub const MAX_CAPABILITY_TAGS: usize = 20;

/// How many characters a tag may have.
pub const MAX_CAPABILITY_TAG_LENGTH: usize = 64;

/// The least an exchange deposit has to hold.
pub const MIN_EXCHANGE_DEPOSIT: u64 = 1_001;

/// The least a withdrawal has to be.
pub const MIN_EXCHANGE_WITHDRAWAL: u64 = 1_001;

/// How many trades are listed unless asked otherwise.
pub const DEFAULT_TRADES_PAGE_SIZE: usize = 50;

/// How many trades are listed at most.
pub const MAX_TRADES_PAGE_SIZE: usize = 200;

/// How many characters a text may have.
pub const MAX_TEXT_FIELD_LENGTH: usize = 20_000;

/// A task that the operator pays for.
#[derive(Debug, Clone)]
pub struct CreateTaskPayload {
    pub description: String,
    pub bounty: u64,
    /// The SHA-256 digest of the expected answer, in hexadecimal.
    pub expected_output_hash: String,
    pub min_reputation: u64,
    pub capabilities: Tags,
}

/// A consensus task that the operator pays for.
#[derive(Debug, Clone)]
pub struct CreateConsensusTaskPayload {
    pub description: String,
    pub bounty: u64,
    pub num_assignees: u32,
    pub join_window_minutes: i64,
    pub submission_window_minutes: i64,
    pub min_reputation: u64,
    pub capabilities: Tags,
}

/// Which tasks to list.
#[derive(Debug, Clone)]
pub struct ListTasksQuery {
    pub offset: usize,
    pub limit: Option<usize>,
    /// A tag that the tasks have to carry.
    pub capability: Option<String>,
    /// A status, or `all`; only open tasks if there is none.
    pub status: Option<String>,
}

/// A task that its poster pays for.
#[derive(Debug, Clone)]
pub struct EscrowTaskPayload {
    pub description: String,
    pub bounty: u64,
    pub expected_output_hash: String,
    pub min_reputation: u64,
    pub capabilities: Tags,
}

/// A consensus task that its poster pays for.
#[derive(Debug, Clone)]
pub struct EscrowConsensusTaskPayload {
    pub description: String,
    pub bounty: u64,
    pub num_assignees: u32,
    pub join_window_minutes: i64,
    pub submission_window_minutes: i64,
    pub min_reputation: u64,
    pub capabilities: Tags,
}

/// A disputable task, which its poster pays for.
#[derive(Debug, Clone)]
pub struct EscrowDisputableTaskPayload {
    pub description: String,
    pub bounty: u64,
    pub dispute_window_minutes: i64,
    pub min_reputation: u64,
    pub capabilities: Tags,
}

/// An order to place.
#[derive(Debug, Clone, Copy, PartialEq, Eq, Structural)]
pub struct PlaceOrderPayload {
    pub side: Side,
    pub price: u64,
    pub quantity: u64,
}

/// A withdrawal, the network's fee included.
#[derive(Debug, Clone, Copy, PartialEq, Eq, Structural)]
pub struct WithdrawPayload {
    pub amount: u64,
}

/// Which trades to list.
#[derive(Debug, Clone, Copy, PartialEq, Eq, Structural)]
pub struct ListTradesQuery {
    pub offset: usize,
    pub limit: Option<usize>,
}

/// Which payments to list.
#[derive(Debug, Clone)]
pub struct PaymentsQuery {
    /// The recipient's key, in hexadecimal.
    pub recipient: String,
    pub offset: usize,
    pub limit: Option<usize>,
}

/// Which agents to list.
#[derive(Debug, Clone)]
pub struct LeaderboardQuery {
    pub offset: Option<usize>,
    pub limit: Option<usize>,
    /// A part of a name or a key.
    pub q: Option<String>,
    /// The column that ranks.
    pub sort: Option<String>,
    /// `asc` for the least first.
    pub dir: Option<String>,
}

/// Which agents' names to look up.
#[derive(Debug, Clone)]
pub struct NamesQuery {
    /// Keys in hexadecimal, with commas between.
    pub pubkeys: String,
}

/// What is told of a text that is too long.
pub open spec fn too_long(field: Seq<char>) -> ErrorView {
    told(Answer::BadRequest, field + " exceeds the 20000-character limit"@)
}

/// Why a text is refused, if it is.
pub open spec fn text_refusal(value: Seq<char>, field: Seq<char>) -> Option<ErrorView> {
    if value.len() > MAX_TEXT_FIELD_LENGTH {
        Some(too_long(field))
    } else {
        None
    }
}

/// Holds a text to the limit, in characters.
pub fn validate_text_field(value: &str, field: &str) -> (r: Result<(), ApiError>)
    ensures
        match text_refusal(value@, field@) {
            Some(e) => refused(r, e),
            None => r is Ok,
        },
{
    if value.unicode_len() > MAX_TEXT_FIELD_LENGTH {
        return Err(ApiError::BadRequest(joined(field, " exceeds the 20000-character limit")));
    }
    Ok(())
}

/// What is told of a window that is too short or too long.
pub open spec fn window_refusal(value: i64, field: Seq<char>) -> Option<ErrorView> {
    if value <= 0 {
        Some(told(Answer::BadRequest, field + " must be positive"@))
    } else if value > MAX_CONSENSUS_WINDOW_MINUTES {
        Some(told(Answer::BadRequest, field + " must be at most 525600 minutes (~1 year)"@))
    } else {
        None
    }
}

/// Holds a window to the bounds, in minutes.
pub fn validate_positive_minutes(value: i64, field: &str) -> (r: Result<(), ApiError>)
    ensures
        match window_refusal(value, field@) {
            Some(e) => refused(r, e),
            None => r is Ok,
        },
{
    if value <= 0 {
        return Err(ApiError::BadRequest(joined(field, " must be positive")));
    }
    if value > MAX_CONSENSUS_WINDOW_MINUTES {
        return Err(ApiError::BadRequest(joined(field, " must be at most 525600 minutes (~1 year)")));
    }
    Ok(())
}

/// What is told of a bounty that leaves no room for the fee.
pub open spec fn bounty_too_large() -> ErrorView {
    told(
        Answer::BadRequest,
        "bounty must be at most 18446744073709550615, leaving room for the 1000 network fee the payout pays"@,
    )
}

/// What a deposit for a bounty has to hold, as far as sixty-four bits do.
pub open spec fn amount_to_deposit(bounty: u64) -> Option<u64> {
    if bounty + HUB_TRANSACTION_FEE <= u64::MAX {
        Some((bounty + HUB_TRANSACTION_FEE) as u64)
    } else {
        None
    }
}

/// What an address has to hold before the task it funds exists: the bounty,
/// and the fee of paying it.
pub fn escrow_amount_for(bounty: u64) -> (r: Result<u64, ApiError>)
    ensures
        match amount_to_deposit(bounty) {
            Some(amount) => r is Ok && r->Ok_0 == amount,
            None => refused(r, bounty_too_large()),
        },
{
    match bounty.checked_add(HUB_TRANSACTION_FEE) {
        Some(amount) => Ok(amount),
        None => Err(
            ApiError::BadRequest(
                "bounty must be at most 18446744073709550615, leaving room for the 1000 network fee the payout pays".to_owned(),
            ),
        ),
    }
}

/// A tag as it is kept: without white space around it, in lower case.
pub open spec fn normal(tag: Seq<char>) -> Seq<char> {
    lowercase(trimmed(tag))
}

/// A tag as it is kept.
pub fn normalize(tag: &str) -> (t: String)
    ensures
        t@ == normal(tag@),
{
    to_lowercase(trim(tag))
}

/// What texts show, in order.
pub open spec fn texts(v: Seq<String>) -> Seq<Seq<char>> {
    v.map_values(|t: String| t@)
}

/// The first of `tags` that is too long.
pub open spec fn overlong(tags: Seq<Seq<char>>) -> Option<Seq<char>>
    decreases tags.len(),
{
    if tags.len() == 0 {
        None
    } else {
        match overlong(tags.drop_last()) {
            Some(tag) => Some(tag),
            None => if tags.last().len() > MAX_CAPABILITY_TAG_LENGTH {
                Some(tags.last())
            } else {
                None
            },
        }
    }
}

/// What is told of a tag that is too long.
pub open spec fn overlong_tag(tag: Seq<char>) -> ErrorView {
    told(
        Answer::BadRequest,
        "capability tag "@ + quoted(tag) + " exceeds the 64-character limit"@,
    )
}

/// Whether `kept` has the tags that are not empty, and no others.
pub open spec fn keeps_tags(kept: Seq<Seq<char>>, tags: Seq<Seq<char>>) -> bool {
    forall|tag: Seq<char>| #[trigger] kept.contains(tag) <==> tag.len() > 0 && tags.contains(tag)
}

/// Collects tags as they are kept: empty ones are left out, and the first
/// that is too long is refused.
pub fn collect_tags(tags: &Vec<String>) -> (r: Result<Tags, ApiError>)
    ensures
        match overlong(texts(tags@)) {
            Some(tag) => refused(r, overlong_tag(tag)),
            None => r is Ok && r->Ok_0.wf() && keeps_tags(r->Ok_0@, texts(tags@)),
        },
{
    let ghost all = texts(tags@);
    let mut kept = Tags::new();
    let mut i: usize = 0;
    while i < tags.len()
        invariant
            i <= tags.len(),
            all == texts(tags@),
            kept.wf(),
            overlong(all.take(i as int)) is None,
            keeps_tags(kept@, all.take(i as int)),
        decreases tags.len() - i,
    {
        let tag = &tags[i];
        let ghost before = kept@;
        proof {
            assert(all.take(i + 1).drop_last() =~= all.take(i as int));
            assert(all.take(i + 1).last() == tag@);
            assert(all.take(i + 1) =~= all.take(i as int).push(tag@));
        }
        if !tag.as_str().is_empty() {
            if tag.as_str().unicode_len() > MAX_CAPABILITY_TAG_LENGTH {
                proof {
                    lemma_overlong_stays(all, i + 1);
                }
                return Err(
                    ApiError::BadRequest(
                        joined(
                            joined("capability tag ", quote(tag.as_str()).as_str()).as_str(),
                            " exceeds the 64-character limit",
                        ),
                    ),
                );
            }
            kept.insert(tag.clone());
        }
        proof {
            assert forall|name: Seq<char>| #[trigger] kept@.contains(name) <==> name.len() > 0 && all.take(
                i + 1,
            ).contains(name) by {
                let longer = all.take(i + 1);
                let shorter = all.take(i as int);
                if longer.contains(name) {
                    let k = choose|k: int| 0 <= k < longer.len() && longer[k] == name;
                    if k < i {
                        assert(shorter[k] == name);
                    }
                }
                if shorter.contains(name) {
                    let k = choose|k: int| 0 <= k < shorter.len() && shorter[k] == name;
                    assert(longer[k] == name);
                }
                if name == tag@ {
                    assert(longer[i as int] == name);
                }
                assert(before.contains(name) <==> name.len() > 0 && shorter.contains(name));
            }
        }
        i += 1;
    }
    assert(all.take(i as int) =~= all);
    Ok(kept)
}

proof fn lemma_overlong_stays(tags: Seq<Seq<char>>, i: int)
    requires
        0 <= i <= tags.len(),
        overlong(tags.take(i)) is Some,
    ensures
        overlong(tags) == overlong(tags.take(i)),
    decreases tags.len() - i,
{
    if i == tags.len() {
        assert(tags.take(i) =~= tags);
    } else {
        assert(tags.take(i + 1).drop_last() =~= tags.take(i));
        lemma_overlong_stays(tags, i + 1);
    }
}

/// What is told of too many tags.
pub open spec fn too_many_tags(n: nat) -> ErrorView {
    told(Answer::BadRequest, "at most 20 capability tags are allowed, got "@ + dec(n))
}

/// Tags as they are kept.
pub open spec fn normals(tags: Seq<Seq<char>>) -> Seq<Seq<char>> {
    tags.map_values(|tag: Seq<char>| normal(tag))
}

/// Whether `r` is what is made of the tags that a task is asked for with: all
/// of them as they are kept, unless there are too many or one is too long.
pub open spec fn validates(raw: Seq<Seq<char>>, r: Result<Tags, ApiError>) -> bool {
    if raw.len() > MAX_CAPABILITY_TAGS {
        refused(r, too_many_tags(raw.len()))
    } else {
        match overlong(normals(raw)) {
            Some(tag) => refused(r, overlong_tag(tag)),
            None => r is Ok && r->Ok_0.wf() && keeps_tags(r->Ok_0@, normals(raw)),
        }
    }
}

/// Brings the tags of a task into the form in which they are kept, and holds
/// them to the limits.
pub fn validate_capabilities(raw: &Tags) -> (r: Result<Tags, ApiError>)
    ensures
        validates(raw@, r),
{
    if raw.len() > MAX_CAPABILITY_TAGS {
        return Err(
            ApiError::BadRequest(
                joined("at most 20 capability tags are allowed, got ", decimal(raw.len() as u64).as_str()),
            ),
        );
    }
    let mut tags: Vec<String> = Vec::new();
    let mut i: usize = 0;
    while i < raw.len()
        invariant
            i <= raw@.len(),
            tags.len() == i,
            forall|j: int| 0 <= j < i ==> (#[trigger] tags@[j])@ == normal(raw@[j]),
        decreases raw@.len() - i,
    {
        tags.push(normalize(raw.tag_at(i)));
        i += 1;
    }
    assert(texts(tags@) =~= normals(raw@));
    collect_tags(&tags)
}

/// Where none is too long, each is short enough.
proof fn lemma_none_overlong(tags: Seq<Seq<char>>)
    ensures
        overlong(tags) is None <==> forall|i: int|
            0 <= i < tags.len() ==> (#[trigger] tags[i]).len() <= MAX_CAPABILITY_TAG_LENGTH,
    decreases tags.len(),
{
    if tags.len() > 0 {
        let shorter = tags.drop_last();
        lemma_none_overlong(shorter);
        assert(tags.last() == tags[tags.len() - 1]);
        if overlong(tags) is None {
            assert forall|i: int| 0 <= i < tags.len() implies (#[trigger] tags[i]).len()
                <= MAX_CAPABILITY_TAG_LENGTH by {
                if i < shorter.len() {
                    assert(shorter[i] == tags[i]);
                }
            }
        } else if forall|i: int| 0 <= i < tags.len() ==> (#[trigger] tags[i]).len() <= MAX_CAPABILITY_TAG_LENGTH {
            assert forall|i: int| 0 <= i < shorter.len() implies (#[trigger] shorter[i]).len()
                <= MAX_CAPABILITY_TAG_LENGTH by {
                assert(shorter[i] == tags[i]);
            }
        }
    }
}

/// Validated tags are what they were asked for, as they are kept: none is
/// empty or too long, there are no more than there were, and validating them
/// again gives them back. What is taken of lower case is that a tag which was
/// brought into its form stays as it is when it is brought into it again.
pub proof fn lemma_validated_stays(raw: Seq<Seq<char>>, out: Tags, again: Result<Tags, ApiError>)
    requires
        validates(raw, Ok(out)),
        validates(out@, again),
        forall|i: int| 0 <= i < raw.len() ==> normal(normal(#[trigger] raw[i])) == normal(raw[i]),
    ensures
        out@.len() <= raw.len() <= MAX_CAPABILITY_TAGS,
        forall|i: int| 0 <= i < out@.len() ==> 0 < (#[trigger] out@[i]).len() <= MAX_CAPABILITY_TAG_LENGTH,
        again is Ok,
        again->Ok_0@ == out@,
{
    let all = normals(raw);
    lemma_none_overlong(all);
    lemma_names_among(out@, all);
    assert forall|i: int| 0 <= i < out@.len() implies 0 < (#[trigger] out@[i]).len() <= MAX_CAPABILITY_TAG_LENGTH
        && normal(out@[i]) == out@[i] by {
        assert(out@.contains(out@[i]));
        let k = choose|k: int| 0 <= k < all.len() && all[k] == out@[i];
        assert(all[k] == normal(raw[k]));
    }
    assert(normals(out@) =~= out@);
    lemma_none_overlong(out@);
    assert forall|name: Seq<char>| #[trigger] again->Ok_0@.contains(name) <==> out@.contains(name) by {
        if out@.contains(name) {
            let k = choose|k: int| 0 <= k < out@.len() && out@[k] == name;
            assert(out@[k].len() > 0);
        }
    }
    lemma_same_names(again->Ok_0@, out@);
}

/// Which tasks are listed by where they stand.
#[derive(Debug, Clone, Copy, PartialEq, Eq, Structural)]
pub enum StatusFilter {
    /// Every task.
    Any,
    /// The tasks of one status.
    Only(TaskStatus),
}

/// The filter that goes by the name, in lower case.
pub open spec fn filter_named(name: Seq<char>) -> Option<StatusFilter> {
    if name == "all"@ {
        Some(StatusFilter::Any)
    } else if name == "open"@ {
        Some(StatusFilter::Only(TaskStatus::Open))
    } else if name == "claimed"@ {
        Some(StatusFilter::Only(TaskStatus::Claimed))
    } else if name == "awaitingdispute"@ {
        Some(StatusFilter::Only(TaskStatus::AwaitingDispute))
    } else if name == "disputed"@ {
        Some(StatusFilter::Only(TaskStatus::Disputed))
    } else if name == "verified"@ {
        Some(StatusFilter::Only(TaskStatus::Verified))
    } else if name == "submitted"@ {
        Some(StatusFilter::Only(TaskStatus::Submitted))
    } else if name == "paid"@ {
        Some(StatusFilter::Only(TaskStatus::Paid))
    } else if name == "payoutfailed"@ {
        Some(StatusFilter::Only(TaskStatus::PayoutFailed))
    } else if name == "closed"@ {
        Some(StatusFilter::Only(TaskStatus::Closed))
    } else {
        None
    }
}

/// What is told of a status that there is not.
pub open spec fn unknown_status(name: Seq<char>) -> ErrorView {
    told(
        Answer::BadRequest,
        "unknown status "@ + quoted(name)
            + " -- expected one of: all, Open, Claimed, AwaitingDispute, Disputed, Verified, Submitted, Paid, PayoutFailed, Closed"@,
    )
}

/// The filter that goes by the name, in lower case.
pub fn status_filter_named(name: &str) -> (r: Result<StatusFilter, ApiError>)
    ensures
        match filter_named(name@) {
            Some(f) => r is Ok && r->Ok_0 == f,
            None => refused(r, unknown_status(name@)),
        },
{
    if same(name, "all") {
        Ok(StatusFilter::Any)
    } else if same(name, "open") {
        Ok(StatusFilter::Only(TaskStatus::Open))
    } else if same(name, "claimed") {
        Ok(StatusFilter::Only(TaskStatus::Claimed))
    } else if same(name, "awaitingdispute") {
        Ok(StatusFilter::Only(TaskStatus::AwaitingDispute))
    } else if same(name, "disputed") {
        Ok(StatusFilter::Only(TaskStatus::Disputed))
    } else if same(name, "verified") {
        Ok(StatusFilter::Only(TaskStatus::Verified))
    } else if same(name, "submitted") {
        Ok(StatusFilter::Only(TaskStatus::Submitted))
    } else if same(name, "paid") {
        Ok(StatusFilter::Only(TaskStatus::Paid))
    } else if same(name, "payoutfailed") {
        Ok(StatusFilter::Only(TaskStatus::PayoutFailed))
    } else if same(name, "closed") {
        Ok(StatusFilter::Only(TaskStatus::Closed))
    } else {
        Err(
            ApiError::BadRequest(
                joined(
                    joined("unknown status ", quote(name).as_str()).as_str(),
                    " -- expected one of: all, Open, Claimed, AwaitingDispute, Disputed, Verified, Submitted, Paid, PayoutFailed, Closed",
                ),
            ),
        )
    }
}

/// The filter that is asked for, whatever the case and the white space around
/// it.
pub fn parse_status_filter(raw: &str) -> (r: Result<StatusFilter, ApiError>)
    ensures
        match filter_named(normal(raw@)) {
            Some(f) => r is Ok && r->Ok_0 == f,
            None => refused(r, unknown_status(normal(raw@))),
        },
{
    status_filter_named(normalize(raw).as_str())
}

/// The digest that thirty-two bytes are.
pub open spec fn digest_of(bytes: Seq<u8>) -> Digest {
    Digest { hi: be_value(bytes.take(16)) as u128, lo: be_value(bytes.skip(16)) as u128 }
}

/// The digest that thirty-two bytes are.
fn to_digest(bytes: &[u8]) -> (d: Digest)
    requires
        bytes@.len() == 32,
    ensures
        d == digest_of(bytes@),
{
    assert(bytes@.skip(0).take(16) =~= bytes@.take(16));
    assert(bytes@.skip(16).take(16) =~= bytes@.skip(16));
    Digest { hi: read_be(bytes, 0), lo: read_be(bytes, 16) }
}

/// What comes of reading a digest that `hex::decode` makes so much of.
pub open spec fn reads_digest(decoded: Result<Seq<u8>, HexError>, r: Result<Digest, ApiError>) -> bool {
    match decoded {
        Ok(bytes) => if bytes.len() == 32 {
            r is Ok && r->Ok_0 == digest_of(bytes)
        } else {
            refused(
                r,
                told(Answer::BadRequest, "expected_output_hash must be exactly 32 bytes (64 hex chars)"@),
            )
        },
        Err(e) => refused(r, told(Answer::BadRequest, "expected_output_hash isn't valid hex: "@ + e.text())),
    }
}

/// Reads a digest in hexadecimal.
pub fn parse_hex_hash(hex: &str) -> (r: Result<Digest, ApiError>)
    ensures
        exists|decoded: Result<Seq<u8>, HexError>| #[trigger]
            decoded_hex(hex.spec_bytes(), decoded) && reads_digest(decoded, r),
{
    let decoded = hex_decode(hex);
    let ghost seen = bytes_view(decoded);
    let r = match decoded {
        Ok(bytes) => if bytes.len() == 32 {
            Ok(to_digest(bytes.as_slice()))
        } else {
            Err(ApiError::BadRequest("expected_output_hash must be exactly 32 bytes (64 hex chars)".to_owned()))
        },
        Err(e) => Err(
            ApiError::BadRequest(joined("expected_output_hash isn't valid hex: ", e.message().as_str())),
        ),
    };
    assert(decoded_hex(hex.spec_bytes(), seen) && reads_digest(seen, r));
    r
}

/// Whether `r` comes of reading a key in hexadecimal, where `point` makes a
/// key of the bytes if they are one.
pub open spec fn reads_key<F: Fn(&[u8]) -> Result<PublicKey, String>>(
    hex: Seq<char>,
    point: F,
    r: Result<PublicKey, ApiError>,
) -> bool {
    exists|decoded: Result<Seq<u8>, HexError>| #[trigger]
        decoded_hex(encode_utf8(hex), decoded) && match decoded {
            Err(e) => refused(r, told(Answer::BadRequest, "bad pubkey hex: "@ + e.text())),
            Ok(seen) => exists|bytes: &[u8], found: Result<PublicKey, String>|
                bytes@ == seen && #[trigger] point.ensures((bytes,), found) && match found {
                    Ok(key) => r is Ok && r->Ok_0 == key,
                    Err(cause) => refused(r, told(Answer::BadRequest, "bad pubkey: "@ + cause@)),
                },
        }
}

/// Reads a key in hexadecimal. `point` makes a key of the bytes, if they are
/// one.
pub fn parse_hex_pubkey<F: Fn(&[u8]) -> Result<PublicKey, String>>(hex: &str, point: &F) -> (r: Result<
    PublicKey,
    ApiError,
>)
    requires
        forall|bytes: &[u8]| #[trigger] point.requires((bytes,)),
    ensures
        reads_key(hex@, *point, r),
{
    let decoded = hex_decode(hex);
    let ghost seen = bytes_view(decoded);
    assert(decoded_hex(hex.spec_bytes(), seen));
    match decoded {
        Err(e) => Err(ApiError::BadRequest(joined("bad pubkey hex: ", e.message().as_str()))),
        Ok(bytes) => {
            let slice = bytes.as_slice();
            let found = point(slice);
            assert(point.ensures((slice,), found));
            match found {
                Ok(key) => Ok(key),
                Err(cause) => Err(ApiError::BadRequest(joined("bad pubkey: ", cause.as_str()))),
            }
        },
    }
}

/// The digest of an answer.
pub fn hash_output(output: &str) -> (d: Digest)
    ensures
        d == digest_of(sha256(output.spec_bytes())),
{
    let digest = sha256_digest(output.as_bytes());
    to_digest(&digest)
}

}
