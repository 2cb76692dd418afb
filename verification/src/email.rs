//! The daily digest: the mail value handed to the outbound email client,
//! and the rendering of the digest body from ranked items and trends.

use vstd::prelude::*;
use vstd::string::StringExecFns;

use crate::data_store::{items_view, ItemModel, SavedItem};
use crate::encoding::{path_enc_of, path_encode};
use crate::trends::Trend;

verus! {

/// An outbound message, ready for the email client.
#[derive(Clone, Debug)]
pub struct Mail {
    pub from_email: String,
    pub to_email: String,
    pub subject: String,
    pub html_content: String,
}

impl Mail {
    /// A plain-text rendering of the message.
    pub fn render(&self) -> (r: String)
        ensures
            r@ == "From: "@ + self.from_email@ + "\nTo: "@ + self.to_email@ + "\nSubject: "@
                + self.subject@ + "\n\n"@ + self.html_content@,
    {
        let mut s = String::from_str("From: ");
        s.append(self.from_email.as_str());
        s.append("\nTo: ");
        s.append(self.to_email.as_str());
        s.append("\nSubject: ");
        s.append(self.subject.as_str());
        s.append("\n\n");
        s.append(self.html_content.as_str());
        proof {
            assert(s@ =~= "From: "@ + self.from_email@ + "\nTo: "@ + self.to_email@
                + "\nSubject: "@ + self.subject@ + "\n\n"@ + self.html_content@);
        }
        s
    }
}

/// Credentials for the outbound email service; the send itself is network
/// work and lives with the caller.
#[derive(Clone, Debug)]
pub struct SendGridAPIClient {
    pub sendgrid_api_key: String,
}

impl SendGridAPIClient {
    /// A client holding this API key.
    pub fn new(sendgrid_api_key: String) -> (r: SendGridAPIClient)
        ensures
            r.sendgrid_api_key@ == sendgrid_api_key@,
    {
        SendGridAPIClient { sendgrid_api_key }
    }
}

/// The mail-send endpoint.
pub fn build_mail_send_url() -> (r: String)
    ensures
        r@ == "https://api.sendgrid.com/v3/mail/send"@,
{
    String::from_str("https://api.sendgrid.com/v3/mail/send")
}

/// The reader URL of a stored item.
pub open spec fn spec_pocket_url(pocket_id: Seq<char>) -> Seq<char> {
    "https://app.getpocket.com/read/"@ + pocket_id
}

/// The search fallback URL for a title, percent-encoded as a path segment.
pub open spec fn spec_fallback_url(title: Seq<char>) -> Seq<char> {
    "https://app.getpocket.com/search/"@ + path_enc_of(title)
}

/// Returns the reader URL of a stored item.
pub fn get_pocket_url(item: &SavedItem) -> (r: String)
    ensures
        r@ == spec_pocket_url(item@.pocket_id),
{
    let mut s = String::from_str("https://app.getpocket.com/read/");
    let pid = item.pocket_id();
    s.append(pid.0.as_str());
    s
}

/// Returns the search fallback URL for an item title.
pub fn get_pocket_fallback_url(item_title: &str) -> (r: String)
    ensures
        r@ == spec_fallback_url(item_title@),
{
    let mut s = String::from_str("https://app.getpocket.com/search/");
    s.append(path_encode(item_title).as_str());
    s
}

/// One digest line for an item: its reader link and its search fallback.
pub open spec fn spec_item_entry(it: ItemModel) -> Seq<char> {
    "<li><a href=\""@ + spec_pocket_url(it.pocket_id) + "\">"@ + it.title + "</a> (<a href=\""@
        + spec_fallback_url(it.title) + "\">Fallback</a>)</li>"@
}

/// The digest lines of a run of items, in order.
pub open spec fn spec_item_entries(items: Seq<ItemModel>) -> Seq<char>
    decreases items.len(),
{
    if items.len() == 0 {
        Seq::empty()
    } else {
        spec_item_entries(items.drop_last()) + spec_item_entry(items.last())
    }
}

/// The digest section of one trend: nothing when the trend matched no
/// items, else the trend header and its item lines.
pub open spec fn spec_trend_section(t: Trend, items: Seq<ItemModel>) -> Seq<char> {
    if items.len() == 0 {
        Seq::empty()
    } else {
        "<li><a href=\""@ + t.spec_explore_link() + "\">Trend: "@ + t.spec_name() + "</a><ol>"@
            + spec_item_entries(items) + "</ol></li>"@
    }
}

/// The digest sections of all trends, in order.
pub open spec fn spec_trend_sections(pairs: Seq<(Trend, Vec<SavedItem>)>) -> Seq<char>
    decreases pairs.len(),
{
    if pairs.len() == 0 {
        Seq::empty()
    } else {
        spec_trend_sections(pairs.drop_last()) + spec_trend_section(
            pairs.last().0,
            items_view(pairs.last().1@),
        )
    }
}

/// The whole digest body: relevant items grouped under their trends, or —
/// when nothing was relevant — a fallback list of stored items.
pub open spec fn spec_email_body(
    relevant: Seq<(Trend, Vec<SavedItem>)>,
    fallback: Seq<ItemModel>,
) -> Seq<char> {
    "<b>Timely items from your Pocket:</b>"@ + (if relevant.len() == 0 {
        "Nothing relevant found in your Pocket, returning some items you may not have seen in a while\n"@
            + "<ol>"@ + spec_item_entries(fallback)
    } else {
        "<ol>"@ + spec_trend_sections(relevant)
    }) + "</ol>"@
}


/// At most this many items are kept per trend in the digest.
pub const NUM_ITEMS_PER_TREND: usize = 2;

/// Once the digest holds more than this many items, no further trend is
/// considered.
pub const MAX_ITEMS_PER_EMAIL: usize = 4;

/// The view of the per-trend item lists: each trend's name and link, with
/// the models of its items.
pub open spec fn pairs_view(pairs: Seq<(Trend, Vec<SavedItem>)>) -> Seq<
    (Seq<char>, Seq<char>, Seq<ItemModel>),
> {
    Seq::new(
        pairs.len(),
        |i: int|
            (pairs[i].0.spec_name(), pairs[i].0.spec_explore_link(), items_view(pairs[i].1@)),
    )
}

/// The digest selection from position `i` on, with `total` items already
/// kept: a trend with no relevant items is skipped, a trend with some keeps
/// its first [`NUM_ITEMS_PER_TREND`] items, and the walk ends once the
/// total exceeds [`MAX_ITEMS_PER_EMAIL`].
pub open spec fn spec_select_digest(
    pairs: Seq<(Seq<char>, Seq<char>, Seq<ItemModel>)>,
    i: int,
    total: int,
) -> Seq<(Seq<char>, Seq<char>, Seq<ItemModel>)>
    decreases pairs.len() - i,
{
    if i < 0 || i >= pairs.len() || total > MAX_ITEMS_PER_EMAIL {
        Seq::empty()
    } else {
        let items = pairs[i].2;
        if items.len() == 0 {
            spec_select_digest(pairs, i + 1, total)
        } else {
            let kept = if items.len() <= NUM_ITEMS_PER_TREND {
                items
            } else {
                items.take(NUM_ITEMS_PER_TREND as int)
            };
            seq![(pairs[i].0, pairs[i].1, kept)] + spec_select_digest(
                pairs,
                i + 1,
                total + kept.len(),
            )
        }
    }
}

/// Picks which ranked items make the digest: the first items of each trend,
/// in trend order, until the email is full.
pub fn select_digest_items(ranked: Vec<(Trend, Vec<SavedItem>)>) -> (r: Vec<(Trend, Vec<SavedItem>)>)
    ensures
        pairs_view(r@) == spec_select_digest(pairs_view(ranked@), 0, 0),
{
    let ghost pv = pairs_view(ranked@);
    let mut out: Vec<(Trend, Vec<SavedItem>)> = Vec::new();
    let mut total: usize = 0;
    let mut i: usize = 0;
    while i < ranked.len() && total <= MAX_ITEMS_PER_EMAIL
        invariant
            pv == pairs_view(ranked@),
            i <= ranked@.len(),
            total <= MAX_ITEMS_PER_EMAIL + NUM_ITEMS_PER_TREND,
            spec_select_digest(pv, 0, 0) == pairs_view(out@) + spec_select_digest(
                pv,
                i as int,
                total as int,
            ),
        decreases ranked@.len() - i,
    {
        let ghost out0 = pairs_view(out@);
        let pair = &ranked[i];
        if pair.1.len() > 0 {
            let mut kept: Vec<SavedItem> = Vec::new();
            let limit = if pair.1.len() <= NUM_ITEMS_PER_TREND {
                pair.1.len()
            } else {
                NUM_ITEMS_PER_TREND
            };
            let mut k: usize = 0;
            while k < limit
                invariant
                    limit <= pair.1@.len(),
                    k <= limit,
                    kept@.len() == k,
                    forall|j: int| 0 <= j < k ==> #[trigger] kept@[j]@ == items_view(pair.1@)[j],
                decreases limit - k,
            {
                kept.push(pair.1[k].duplicate());
                k = k + 1;
            }
            proof {
                let items = pv[i as int].2;
                let spec_kept = if items.len() <= NUM_ITEMS_PER_TREND {
                    items
                } else {
                    items.take(NUM_ITEMS_PER_TREND as int)
                };
                assert(items_view(kept@) =~= spec_kept);
            }
            let n = kept.len();
            out.push((pair.0.duplicate(), kept));
            total = total + n;
            proof {
                let items = pv[i as int].2;
                let spec_kept = if items.len() <= NUM_ITEMS_PER_TREND {
                    items
                } else {
                    items.take(NUM_ITEMS_PER_TREND as int)
                };
                assert(pairs_view(out@) =~= out0 + seq![
                    (pv[i as int].0, pv[i as int].1, spec_kept),
                ]);
            }
        }
        proof {
            assert(pairs_view(out@) + spec_select_digest(pv, i + 1, total as int)
                =~= spec_select_digest(pv, 0, 0));
        }
        i = i + 1;
    }
    proof {
        assert(spec_select_digest(pv, i as int, total as int) =~= Seq::<(
            Seq<char>,
            Seq<char>,
            Seq<ItemModel>,
        )>::empty());
        assert(pairs_view(out@) =~= spec_select_digest(pv, 0, 0));
    }
    out
}

/// Renders one item line.
fn item_entry(it: &SavedItem) -> (r: String)
    ensures
        r@ == spec_item_entry(it@),
{
    let mut s = String::from_str("<li><a href=\"");
    s.append(get_pocket_url(it).as_str());
    s.append("\">");
    s.append(it.title().as_str());
    s.append("</a> (<a href=\"");
    s.append(get_pocket_fallback_url(it.title().as_str()).as_str());
    s.append("\">Fallback</a>)</li>");
    proof {
        assert(s@ =~= spec_item_entry(it@));
    }
    s
}

/// Renders the lines of a run of items.
fn item_entries(items: &Vec<SavedItem>) -> (r: String)
    ensures
        r@ == spec_item_entries(items_view(items@)),
{
    let mut s = String::new();
    let mut i: usize = 0;
    while i < items.len()
        invariant
            i <= items@.len(),
            s@ == spec_item_entries(items_view(items@).subrange(0, i as int)),
        decreases items@.len() - i,
    {
        let ghost prefix = items_view(items@).subrange(0, i as int);
        let ghost ext = items_view(items@).subrange(0, i + 1);
        s.append(item_entry(&items[i]).as_str());
        proof {
            assert(ext.drop_last() =~= prefix);
            assert(ext.last() == items_view(items@)[i as int]);
            assert(s@ =~= spec_item_entries(ext));
        }
        i = i + 1;
    }
    proof {
        assert(items_view(items@).subrange(0, items@.len() as int) =~= items_view(items@));
    }
    s
}

/// Renders the digest body from the ranked items of each trend and, for an
/// empty ranking, from a fallback list of stored items.
pub fn get_email_body(
    relevant_items: &Vec<(Trend, Vec<SavedItem>)>,
    fallback_items: &Vec<SavedItem>,
) -> (r: String)
    ensures
        r@ == spec_email_body(relevant_items@, items_view(fallback_items@)),
{
    let mut body = String::from_str("<b>Timely items from your Pocket:</b>");
    if relevant_items.len() == 0 {
        body.append(
            "Nothing relevant found in your Pocket, returning some items you may not have seen in a while\n",
        );
        body.append("<ol>");
        body.append(item_entries(fallback_items).as_str());
    } else {
        body.append("<ol>");
        let mut i: usize = 0;
        while i < relevant_items.len()
            invariant
                i <= relevant_items@.len(),
                relevant_items@.len() > 0,
                body@ == "<b>Timely items from your Pocket:</b>"@ + "<ol>"@ + spec_trend_sections(
                    relevant_items@.subrange(0, i as int),
                ),
            decreases relevant_items@.len() - i,
        {
            let ghost prefix = relevant_items@.subrange(0, i as int);
            let ghost ext = relevant_items@.subrange(0, i + 1);
            let pair = &relevant_items[i];
            if pair.1.len() > 0 {
                body.append("<li><a href=\"");
                body.append(pair.0.explore_link().as_str());
                body.append("\">Trend: ");
                body.append(pair.0.name().as_str());
                body.append("</a><ol>");
                body.append(item_entries(&pair.1).as_str());
                body.append("</ol></li>");
            }
            proof {
                assert(ext.drop_last() =~= prefix);
                assert(ext.last() == relevant_items@[i as int]);
                assert(body@ =~= "<b>Timely items from your Pocket:</b>"@ + "<ol>"@
                    + spec_trend_sections(ext));
            }
            i = i + 1;
        }
        proof {
            assert(relevant_items@.subrange(0, relevant_items@.len() as int) =~= relevant_items@);
        }
    }
    body.append("</ol>");
    proof {
        assert(body@ =~= spec_email_body(relevant_items@, items_view(fallback_items@)));
    }
    body
}

} // verus!
