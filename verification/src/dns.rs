//! The TXT records that prove control of a domain, kept with Cloudflare.
use crate::json::{Json, first, first_spec, member, member_in, member_spec, text, text_spec};
use crate::text::{
    chars_of, joined, joining_undoes_splitting, split, split_on, string_of, sub_chars, texts,
};
use vstd::prelude::*;

verus! {

/// `s` without the `*.` that it starts with, however often.
pub open spec fn strip_wildcards(s: Seq<char>) -> Seq<char>
    decreases s.len(),
{
    if s.len() >= 2 && s[0] == '*' && s[1] == '.' {
        strip_wildcards(s.skip(2))
    } else {
        s
    }
}

/// `s` without the `*` that it starts with, however often.
pub open spec fn strip_stars(s: Seq<char>) -> Seq<char>
    decreases s.len(),
{
    if s.len() >= 1 && s[0] == '*' {
        strip_stars(s.skip(1))
    } else {
        s
    }
}

/// The domain that a wildcard domain stands under.
pub open spec fn bare_spec(domain: Seq<char>) -> Seq<char> {
    strip_stars(strip_wildcards(domain))
}

/// The zone that a domain belongs to: its last two labels.
pub open spec fn zone_root_spec(domain: Seq<char>) -> Seq<char> {
    let bare = bare_spec(domain);
    let labels = split_on(bare, '.');
    let n = labels.len() as int;
    if n >= 2 {
        labels[n - 2] + "."@ + labels[n - 1]
    } else {
        bare
    }
}

/// The name of the TXT record for a domain.
pub open spec fn record_name_spec(domain: Seq<char>) -> Seq<char> {
    "_acme-challenge."@ + bare_spec(domain)
}

fn bare_chars(domain: &str) -> (r: Vec<char>)
    ensures
        r@ == bare_spec(domain@),
{
    let v = chars_of(domain);
    let mut i: usize = 0;
    proof {
        assert(v@.skip(0) =~= v@);
    }
    while v.len() - i >= 2 && v[i] == '*' && v[i + 1] == '.'
        invariant
            i <= v.len(),
            strip_wildcards(v@) == strip_wildcards(v@.skip(i as int)),
        decreases v.len() - i,
    {
        proof {
            assert(v@.skip(i as int).skip(2) =~= v@.skip(i + 2));
        }
        i = i + 2;
    }
    let ghost s = v@.skip(i as int);
    while i < v.len() && v[i] == '*'
        invariant
            i <= v.len(),
            strip_stars(s) == strip_stars(v@.skip(i as int)),
        decreases v.len() - i,
    {
        proof {
            assert(v@.skip(i as int).skip(1) =~= v@.skip(i + 1));
        }
        i = i + 1;
    }
    proof {
        assert(v@.subrange(i as int, v@.len() as int) =~= v@.skip(i as int));
    }
    sub_chars(&v, i, v.len())
}

/// The zone that a domain belongs to.
pub fn zone_root(domain: &str) -> (r: String)
    ensures
        r@ == zone_root_spec(domain@),
{
    let bare = bare_chars(domain);
    let labels = split(&bare, '.');
    let ghost all = split_on(bare@, '.');
    proof {
        assert(all.len() == labels@.len());
    }
    let n: usize = labels.len();
    if n >= 2 {
        proof {
            assert(all[n - 2] == labels@[n - 2]@);
            assert(all[n - 1] == labels@[n - 1]@);
        }
        let mut s = string_of(&labels[n - 2]);
        s.append(".");
        s.append(string_of(&labels[n - 1]).as_str());
        s
    } else {
        string_of(&bare)
    }
}

/// The name of the TXT record for a domain.
pub fn challenge_record_name(domain: &str) -> (r: String)
    ensures
        r@ == record_name_spec(domain@),
{
    let mut s = "_acme-challenge.".to_owned();
    s.append(string_of(&bare_chars(domain)).as_str());
    s
}

/// A wildcard domain shares its TXT record and its zone with the domain that it
/// stands under.
pub proof fn wildcard_shares_record(domain: Seq<char>)
    ensures
        record_name_spec("*."@ + domain) == record_name_spec(domain),
        zone_root_spec("*."@ + domain) == zone_root_spec(domain),
{
    reveal_strlit("*.");
    assert(("*."@ + domain).skip(2) =~= domain);
}

/// Where the zones are.
pub open spec fn zones_url_spec() -> Seq<char> {
    "https://api.cloudflare.com/client/v4/zones"@
}

/// Where the records of a zone are.
pub open spec fn records_url_spec(zone: Seq<char>) -> Seq<char> {
    zones_url_spec() + "/"@ + zone + "/dns_records"@
}

/// Where one record of a zone is.
pub open spec fn record_url_spec(zone: Seq<char>, id: Seq<char>) -> Seq<char> {
    records_url_spec(zone) + "/"@ + id
}

/// Where the zones are.
pub fn zones_url() -> (r: &'static str)
    ensures
        r@ == zones_url_spec(),
{
    "https://api.cloudflare.com/client/v4/zones"
}

/// Where the records of a zone are.
pub fn records_url(zone: &str) -> (r: String)
    ensures
        r@ == records_url_spec(zone@),
{
    let mut s = zones_url().to_owned();
    s.append("/");
    s.append(zone);
    s.append("/dns_records");
    s
}

/// Where one record of a zone is.
pub fn record_url(zone: &str, id: &str) -> (r: String)
    ensures
        r@ == record_url_spec(zone@, id@),
{
    let mut s = records_url(zone);
    s.append("/");
    s.append(id);
    s
}

/// The zone's identifier in the answer to a search for it.
pub open spec fn zone_id_spec(response: Json) -> Option<Seq<char>> {
    text_spec(
        member_spec(
            first_spec(member_spec(Some(response), "result"@)),
            "id"@,
        ),
    )
}

/// The zone's identifier in the answer to a search for it.
pub fn zone_id(response: &Json) -> (r: Option<String>)
    ensures
        match r {
            Some(id) => zone_id_spec(*response) == Some(id@),
            None => zone_id_spec(*response) is None,
        },
{
    text(member(first(member(Some(response), "result")), "id"))
}

/// The identifiers of those items that have one.
pub open spec fn ids_of(items: Seq<Json>) -> Seq<Seq<char>>
    decreases items.len(),
{
    if items.len() == 0 {
        Seq::empty()
    } else {
        let before = ids_of(items.drop_last());
        match text_spec(member_spec(Some(items.last()), "id"@)) {
            Some(id) => before.push(id),
            None => before,
        }
    }
}

/// The identifiers of the records in a listing.
pub open spec fn record_ids_spec(response: Json) -> Seq<Seq<char>> {
    match member_spec(Some(response), "result"@) {
        Some(Json::Array(items)) => ids_of(items@),
        _ => Seq::empty(),
    }
}

/// The identifiers of the records in a listing.
pub fn record_ids(response: &Json) -> (r: Vec<String>)
    ensures
        texts(r@) == record_ids_spec(*response),
{
    let mut out: Vec<String> = Vec::new();
    proof {
        assert(texts(out@) =~= Seq::<Seq<char>>::empty());
    }
    match member(Some(response), "result") {
        Some(Json::Array(items)) => {
            let mut i: usize = 0;
            proof {
                assert(items@.take(0) =~= Seq::<Json>::empty());
            }
            while i < items.len()
                invariant
                    i <= items.len(),
                    texts(out@) == ids_of(items@.take(i as int)),
                decreases items.len() - i,
            {
                let ghost before = out@;
                proof {
                    assert(items@.take(i + 1).drop_last() =~= items@.take(i as int));
                    assert(items@.take(i + 1).last() == items@[i as int]);
                }
                match text(member(Some(&items[i]), "id")) {
                    Some(id) => {
                        let ghost t = id@;
                        out.push(id);
                        proof {
                            assert(texts(out@) =~= texts(before).push(t));
                        }
                    },
                    None => {},
                }
                i = i + 1;
            }
            proof {
                assert(items@.take(i as int) =~= items@);
            }
            out
        },
        _ => out,
    }
}

/// Whether an answer says that the request was carried out.
pub open spec fn succeeded_spec(response: Json) -> bool {
    member_spec(Some(response), "success"@) == Some(Json::Bool(true))
}

/// Tells whether an answer says that the request was carried out.
pub fn succeeded(response: &Json) -> (r: bool)
    ensures
        r == succeeded_spec(*response),
{
    match member(Some(response), "success") {
        Some(Json::Bool(b)) => *b,
        _ => false,
    }
}

/// The life time that a TXT record is made with, in seconds.
pub const RECORD_TTL: u32 = 60;

/// What is wanted of the TXT record of a domain.
#[derive(Debug)]
pub enum TxtGoal {
    /// It holds this value, and no other record with its name is left.
    Hold(String),
    /// No record with its name is left.
    Clear,
}

/// How far a change of a TXT record has come.
#[derive(Debug)]
pub enum TxtStage {
    /// The zone is being searched for.
    FindingZone,
    /// The records of this zone are being listed.
    Listing(String),
    /// The record at this position among those with these identifiers is being
    /// deleted.
    Deleting(String, Vec<String>, usize),
    /// The new record is being made.
    Creating,
    /// There is nothing left to do.
    Done,
}

/// What came of the last action.
#[derive(Debug)]
pub enum TxtEvent {
    /// This was answered.
    Answered(Json),
    /// The record is deleted.
    Deleted,
}

/// Why a change of a TXT record failed.
#[derive(Debug, Clone, Copy, PartialEq, Eq, Structural)]
pub enum TxtError {
    /// There is no zone for the domain.
    ZoneNotFound,
    /// The new record was refused.
    Refused,
}

impl TxtError {
    /// Says why the change for a domain failed. `errors` is what the refusal gave as its
    /// reasons.
    pub fn message(&self, domain: &str, errors: &str) -> (r: String)
        ensures
            r@ == match self {
                TxtError::ZoneNotFound => "Cloudflare zone not found for domain: "@ + domain@,
                TxtError::Refused => "Cloudflare API error: "@ + errors@,
            },
    {
        match self {
            TxtError::ZoneNotFound => {
                let mut s = "Cloudflare zone not found for domain: ".to_owned();
                s.append(domain);
                s
            },
            TxtError::Refused => {
                let mut s = "Cloudflare API error: ".to_owned();
                s.append(errors);
                s
            },
        }
    }
}

/// What to do next.
#[derive(Debug)]
pub enum TxtAction {
    /// Search for the zone with this name.
    FindZone(String),
    /// List the TXT records with this name, which are at this URL.
    ListRecords { url: String, name: String },
    /// Delete the record at this URL.
    DeleteRecord(String),
    /// Make a TXT record at this URL.
    CreateRecord { url: String, name: String, content: String, ttl: u32 },
    /// The change is made.
    Finish,
    /// The change is given up.
    Fail(TxtError),
}

/// What a [`TxtGoal`] says: the value, if there is to be one.
pub open spec fn goal_view(goal: TxtGoal) -> Option<Seq<char>> {
    match goal {
        TxtGoal::Hold(value) => Some(value@),
        TxtGoal::Clear => None,
    }
}

/// What a [`TxtStage`] says.
pub enum TxtStageView {
    FindingZone,
    Listing(Seq<char>),
    Deleting(Seq<char>, Seq<Seq<char>>, int),
    Creating,
    Done,
}

/// What a [`TxtAction`] says.
pub enum TxtActionView {
    FindZone(Seq<char>),
    ListRecords { url: Seq<char>, name: Seq<char> },
    DeleteRecord(Seq<char>),
    CreateRecord { url: Seq<char>, name: Seq<char>, content: Seq<char>, ttl: int },
    Finish,
    Fail(TxtError),
}

impl View for TxtStage {
    type V = TxtStageView;

    open spec fn view(&self) -> TxtStageView {
        match self {
            TxtStage::FindingZone => TxtStageView::FindingZone,
            TxtStage::Listing(zone) => TxtStageView::Listing(zone@),
            TxtStage::Deleting(zone, ids, next) => TxtStageView::Deleting(
                zone@,
                texts(ids@),
                *next as int,
            ),
            TxtStage::Creating => TxtStageView::Creating,
            TxtStage::Done => TxtStageView::Done,
        }
    }
}

impl View for TxtAction {
    type V = TxtActionView;

    open spec fn view(&self) -> TxtActionView {
        match self {
            TxtAction::FindZone(name) => TxtActionView::FindZone(name@),
            TxtAction::ListRecords { url, name } => TxtActionView::ListRecords {
                url: url@,
                name: name@,
            },
            TxtAction::DeleteRecord(url) => TxtActionView::DeleteRecord(url@),
            TxtAction::CreateRecord { url, name, content, ttl } => TxtActionView::CreateRecord {
                url: url@,
                name: name@,
                content: content@,
                ttl: *ttl as int,
            },
            TxtAction::Finish => TxtActionView::Finish,
            TxtAction::Fail(e) => TxtActionView::Fail(*e),
        }
    }
}

/// What follows when no record with the name is left.
pub open spec fn cleared_spec(domain: Seq<char>, goal: Option<Seq<char>>, zone: Seq<char>) -> (
    TxtStageView,
    TxtActionView,
) {
    match goal {
        Some(value) => (
            TxtStageView::Creating,
            TxtActionView::CreateRecord {
                url: records_url_spec(zone),
                name: record_name_spec(domain),
                content: value,
                ttl: RECORD_TTL as int,
            },
        ),
        None => (TxtStageView::Done, TxtActionView::Finish),
    }
}

/// What follows when the records before position `next` are deleted.
pub open spec fn delete_from_spec(
    domain: Seq<char>,
    goal: Option<Seq<char>>,
    zone: Seq<char>,
    ids: Seq<Seq<char>>,
    next: int,
) -> (TxtStageView, TxtActionView) {
    if next < ids.len() {
        (
            TxtStageView::Deleting(zone, ids, next),
            TxtActionView::DeleteRecord(record_url_spec(zone, ids[next])),
        )
    } else {
        cleared_spec(domain, goal, zone)
    }
}

/// Whether an event is one that comes of the stage's own action.
pub open spec fn txt_expects(stage: TxtStageView, event: TxtEvent) -> bool {
    match stage {
        TxtStageView::FindingZone => event is Answered,
        TxtStageView::Listing(_) => event is Answered,
        TxtStageView::Deleting(_, ids, next) => event is Deleted && 0 <= next < ids.len(),
        TxtStageView::Creating => event is Answered,
        TxtStageView::Done => false,
    }
}

/// How a change of a TXT record goes on.
pub open spec fn txt_step_spec(
    domain: Seq<char>,
    goal: Option<Seq<char>>,
    stage: TxtStageView,
    event: TxtEvent,
) -> (TxtStageView, TxtActionView) {
    match (stage, event) {
        (TxtStageView::FindingZone, TxtEvent::Answered(response)) => match zone_id_spec(response) {
            Some(zone) => (
                TxtStageView::Listing(zone),
                TxtActionView::ListRecords {
                    url: records_url_spec(zone),
                    name: record_name_spec(domain),
                },
            ),
            None => (TxtStageView::Done, TxtActionView::Fail(TxtError::ZoneNotFound)),
        },
        (TxtStageView::Listing(zone), TxtEvent::Answered(response)) => delete_from_spec(
            domain,
            goal,
            zone,
            record_ids_spec(response),
            0,
        ),
        (TxtStageView::Deleting(zone, ids, next), TxtEvent::Deleted) => delete_from_spec(
            domain,
            goal,
            zone,
            ids,
            next + 1,
        ),
        (TxtStageView::Creating, TxtEvent::Answered(response)) => if succeeded_spec(response) {
            (TxtStageView::Done, TxtActionView::Finish)
        } else {
            (TxtStageView::Done, TxtActionView::Fail(TxtError::Refused))
        },
        _ => (stage, TxtActionView::Finish),
    }
}

/// A change of the TXT record of a domain.
#[derive(Debug)]
pub struct TxtChange {
    pub domain: String,
    pub goal: TxtGoal,
    pub stage: TxtStage,
}

impl TxtChange {
    /// Whether the change is one that can be gone on with.
    pub open spec fn wf(self) -> bool {
        self.stage matches TxtStage::Deleting(_, ids, next) ==> next < ids@.len()
    }

    /// Starts a change: first the zone is searched for.
    pub fn start(domain: String, goal: TxtGoal) -> (r: (TxtChange, TxtAction))
        ensures
            r.0.wf(),
            r.0.domain == domain,
            r.0.goal == goal,
            r.0.stage@ == TxtStageView::FindingZone,
            r.1@ == TxtActionView::FindZone(zone_root_spec(domain@)),
    {
        let root = zone_root(domain.as_str());
        (TxtChange { domain, goal, stage: TxtStage::FindingZone }, TxtAction::FindZone(root))
    }

    fn cleared(&mut self, zone: String) -> (r: TxtAction)
        ensures
            final(self).wf(),
            final(self).domain == old(self).domain,
            final(self).goal == old(self).goal,
            (final(self).stage@, r@) == cleared_spec(
                old(self).domain@,
                goal_view(old(self).goal),
                zone@,
            ),
    {
        match &self.goal {
            TxtGoal::Hold(value) => {
                let content = value.clone();
                self.stage = TxtStage::Creating;
                TxtAction::CreateRecord {
                    url: records_url(zone.as_str()),
                    name: challenge_record_name(self.domain.as_str()),
                    content,
                    ttl: RECORD_TTL,
                }
            },
            TxtGoal::Clear => {
                self.stage = TxtStage::Done;
                TxtAction::Finish
            },
        }
    }

    fn delete_from(&mut self, zone: String, ids: Vec<String>, next: usize) -> (r: TxtAction)
        ensures
            final(self).wf(),
            final(self).domain == old(self).domain,
            final(self).goal == old(self).goal,
            (final(self).stage@, r@) == delete_from_spec(
                old(self).domain@,
                goal_view(old(self).goal),
                zone@,
                texts(ids@),
                next as int,
            ),
    {
        if next < ids.len() {
            assert(texts(ids@)[next as int] == ids@[next as int]@);
            let url = record_url(zone.as_str(), ids[next].as_str());
            self.stage = TxtStage::Deleting(zone, ids, next);
            TxtAction::DeleteRecord(url)
        } else {
            self.cleared(zone)
        }
    }

    /// Goes on with a change after an event.
    pub fn step(&mut self, event: TxtEvent) -> (r: TxtAction)
        requires
            old(self).wf(),
            txt_expects(old(self).stage@, event),
        ensures
            final(self).wf(),
            final(self).domain == old(self).domain,
            final(self).goal == old(self).goal,
            (final(self).stage@, r@) == txt_step_spec(
                old(self).domain@,
                goal_view(old(self).goal),
                old(self).stage@,
                event,
            ),
    {
        let mut stage = TxtStage::Done;
        std::mem::swap(&mut stage, &mut self.stage);
        match (stage, event) {
            (TxtStage::FindingZone, TxtEvent::Answered(response)) => match zone_id(&response) {
                Some(zone) => {
                    let url = records_url(zone.as_str());
                    let name = challenge_record_name(self.domain.as_str());
                    self.stage = TxtStage::Listing(zone);
                    TxtAction::ListRecords { url, name }
                },
                None => TxtAction::Fail(TxtError::ZoneNotFound),
            },
            (TxtStage::Listing(zone), TxtEvent::Answered(response)) => {
                let ids = record_ids(&response);
                self.delete_from(zone, ids, 0)
            },
            (TxtStage::Deleting(zone, ids, next), TxtEvent::Deleted) => {
                assert(next < ids.len());
                self.delete_from(zone, ids, next + 1)
            },
            (TxtStage::Creating, TxtEvent::Answered(response)) => if succeeded(&response) {
                TxtAction::Finish
            } else {
                TxtAction::Fail(TxtError::Refused)
            },
            // No other event comes of the stage's own action.
            (stage, _) => {
                self.stage = stage;
                TxtAction::Finish
            },
        }
    }
}

/// The stage that a change comes to when `n` deletions follow a listing.
pub open spec fn after_deletions(
    domain: Seq<char>,
    goal: Option<Seq<char>>,
    zone: Seq<char>,
    listing: Json,
    n: nat,
) -> (TxtStageView, TxtActionView)
    decreases n,
{
    if n == 0 {
        txt_step_spec(domain, goal, TxtStageView::Listing(zone), TxtEvent::Answered(listing))
    } else {
        txt_step_spec(
            domain,
            goal,
            after_deletions(domain, goal, zone, listing, (n - 1) as nat).0,
            TxtEvent::Deleted,
        )
    }
}

/// Every record in the listing is deleted, in its order, before the new one is made;
/// when they are all deleted the new one is made, or the change is done if none is
/// wanted.
pub proof fn old_records_go_first(
    domain: Seq<char>,
    goal: Option<Seq<char>>,
    zone: Seq<char>,
    listing: Json,
    n: nat,
)
    requires
        n <= record_ids_spec(listing).len(),
    ensures
        after_deletions(domain, goal, zone, listing, n) == delete_from_spec(
            domain,
            goal,
            zone,
            record_ids_spec(listing),
            n as int,
        ),
        n < record_ids_spec(listing).len() ==> after_deletions(domain, goal, zone, listing, n).1
            == TxtActionView::DeleteRecord(
            record_url_spec(zone, record_ids_spec(listing)[n as int]),
        ),
        n == record_ids_spec(listing).len() ==> after_deletions(domain, goal, zone, listing, n)
            == cleared_spec(domain, goal, zone),
    decreases n,
{
    if n > 0 {
        old_records_go_first(domain, goal, zone, listing, (n - 1) as nat);
    }
}

/// A change that ends well with a value wanted ends with the answer that the new record
/// was made; a change with none wanted makes no record.
pub proof fn set_ends_with_a_record(
    domain: Seq<char>,
    goal: Option<Seq<char>>,
    stage: TxtStageView,
    event: TxtEvent,
)
    requires
        txt_expects(stage, event),
    ensures
        ({
            let (next, action) = txt_step_spec(domain, goal, stage, event);
            &&& (goal is Some && action == TxtActionView::Finish ==> stage
                == TxtStageView::Creating && succeeded_spec(event->Answered_0))
            &&& (goal is None ==> !(action is CreateRecord))
            &&& (next == TxtStageView::Done <==> action is Finish || action is Fail)
        }),
{
}

proof fn lemma_strip_wildcards(s: Seq<char>) -> (n: int)
    ensures
        0 <= n <= s.len(),
        strip_wildcards(s) == s.skip(n),
        forall|k: int| 0 <= k < n ==> #[trigger] s[k] == '*' || s[k] == '.',
    decreases s.len(),
{
    if s.len() >= 2 && s[0] == '*' && s[1] == '.' {
        let rest = s.skip(2);
        let n = lemma_strip_wildcards(rest);
        assert(rest.skip(n) =~= s.skip(n + 2));
        assert forall|k: int| 0 <= k < n + 2 implies #[trigger] s[k] == '*' || s[k] == '.' by {
            if k >= 2 {
                assert(rest[k - 2] == s[k]);
            }
        }
        n + 2
    } else {
        assert(s.skip(0) =~= s);
        0
    }
}

proof fn lemma_strip_stars(s: Seq<char>) -> (n: int)
    ensures
        0 <= n <= s.len(),
        strip_stars(s) == s.skip(n),
        forall|k: int| 0 <= k < n ==> #[trigger] s[k] == '*',
        n < s.len() ==> s[n] != '*',
    decreases s.len(),
{
    if s.len() >= 1 && s[0] == '*' {
        let rest = s.skip(1);
        let n = lemma_strip_stars(rest);
        assert(rest.skip(n) =~= s.skip(n + 1));
        assert forall|k: int| 0 <= k < n + 1 implies #[trigger] s[k] == '*' by {
            if k >= 1 {
                assert(rest[k - 1] == s[k]);
            }
        }
        n + 1
    } else {
        assert(s.skip(0) =~= s);
        0
    }
}

/// A domain that does not start with a star is its own bare domain: its record is named by
/// the whole of it.
pub proof fn plain_domain_names_its_record(domain: Seq<char>)
    requires
        domain.len() == 0 || domain[0] != '*',
    ensures
        bare_spec(domain) == domain,
        record_name_spec(domain) == "_acme-challenge."@ + domain,
{
}

/// A bare domain is the end of its domain, does not start with a star, and lacks nothing but
/// stars and dots of it.
pub proof fn bare_domain_is_the_end(domain: Seq<char>)
    ensures
        exists|n: int|
            0 <= n <= domain.len() && bare_spec(domain) == #[trigger] domain.skip(n) && forall|
                k: int,
            |
                0 <= k < n ==> #[trigger] domain[k] == '*' || domain[k] == '.',
        bare_spec(domain).len() > 0 ==> bare_spec(domain)[0] != '*',
{
    let a = lemma_strip_wildcards(domain);
    let rest = domain.skip(a);
    let b = lemma_strip_stars(rest);
    assert(rest.skip(b) =~= domain.skip(a + b));
    assert forall|k: int| 0 <= k < a + b implies #[trigger] domain[k] == '*' || domain[k]
        == '.' by {
        if k >= a {
            assert(rest[k - a] == domain[k]);
        }
    }
    if b < rest.len() {
        assert(bare_spec(domain)[0] == rest[b]);
    }
}

/// A star that stands for a whole label goes with its dot, as often as it is there, and a
/// star before anything else goes alone; stars are taken as labels first.
pub proof fn stars_go_with_their_dots(domain: Seq<char>)
    ensures
        bare_spec("*."@ + domain) == bare_spec(domain),
        domain.len() == 0 || domain[0] != '.' && domain[0] != '*' ==> bare_spec("*"@ + domain)
            == domain,
{
    reveal_strlit("*.");
    reveal_strlit("*");
    assert(("*."@ + domain).skip(2) =~= domain);
    assert(("*"@ + domain).skip(1) =~= domain);
}

/// The zone of a domain is its last two labels, however many stand before them; a single
/// label is its own zone.
pub proof fn zone_is_the_last_two_labels(labels: Seq<Seq<char>>)
    requires
        labels.len() >= 1,
        forall|i: int| 0 <= i < labels.len() ==> !(#[trigger] labels[i]).contains('.'),
        labels[0].len() == 0 || labels[0][0] != '*',
    ensures
        labels.len() == 1 ==> zone_root_spec(joined(labels, '.')) == labels[0],
        labels.len() >= 2 ==> zone_root_spec(joined(labels, '.')) == labels[labels.len() - 2]
            + "."@ + labels[labels.len() - 1],
{
    let domain = joined(labels, '.');
    joining_undoes_splitting(labels, '.');
    if labels.len() >= 2 {
        assert(domain[0] == if labels[0].len() > 0 {
            labels[0][0]
        } else {
            '.'
        });
    }
    plain_domain_names_its_record(domain);
}

/// Where the records and zones are, in full.
pub proof fn urls_are_under_the_zones(zone: Seq<char>, id: Seq<char>)
    ensures
        zones_url_spec() == "https://api.cloudflare.com/client/v4/zones"@,
        records_url_spec(zone) == "https://api.cloudflare.com/client/v4/zones"@ + "/"@ + zone
            + "/dns_records"@,
        record_url_spec(zone, id) == "https://api.cloudflare.com/client/v4/zones"@ + "/"@ + zone
            + "/dns_records"@ + "/"@ + id,
{
}

/// The zone's identifier is the text `id` of the first item of `result`, and there is none
/// where any of these is missing or of another kind.
pub proof fn zone_id_is_in_the_first_result(
    members: Vec<(String, Json)>,
    items: Vec<Json>,
    zone: Vec<(String, Json)>,
    id: String,
)
    requires
        member_in(members@, "result"@) == Some(Json::Array(items)),
        items@.len() > 0,
        items@[0] == Json::Object(zone),
        member_in(zone@, "id"@) == Some(Json::Text(id)),
    ensures
        zone_id_spec(Json::Object(members)) == Some(id@),
{
}

/// Without a first result there is no zone.
pub proof fn no_result_no_zone(response: Json)
    ensures
        !(response is Object) ==> zone_id_spec(response) is None,
        (response matches Json::Object(members) && !(member_in(members@, "result"@) matches Some(
            Json::Array(_),
        ))) ==> zone_id_spec(response) is None,
        (response matches Json::Object(members) && (member_in(members@, "result"@) matches Some(
            Json::Array(items),
        ) && items@.len() == 0)) ==> zone_id_spec(response) is None,
{
}

/// The records of a listing are those items of `result` that have a text `id`, in their
/// order.
pub proof fn records_are_the_items_with_an_id(items: Seq<Json>, item: Json)
    ensures
        ids_of(Seq::empty()) == Seq::<Seq<char>>::empty(),
        (item matches Json::Object(members) && (member_in(members@, "id"@) matches Some(
            Json::Text(id),
        ) && ids_of(items.push(item)) == ids_of(items).push(id@))) || ids_of(items.push(item))
            == ids_of(items),
        (item matches Json::Object(members) && (member_in(members@, "id"@) is Some && member_in(
            members@,
            "id"@,
        )->0 is Text)) ==> ids_of(items.push(item)).len() == ids_of(items).len() + 1,
{
    assert(items.push(item).drop_last() =~= items);
}

/// A listing is read from its member `result`, if that is an array, and an answer says that
/// the request was carried out exactly if its member `success` is `true`.
pub proof fn answers_are_read_from_their_members(members: Vec<(String, Json)>)
    ensures
        record_ids_spec(Json::Object(members)) == match member_in(members@, "result"@) {
            Some(Json::Array(items)) => ids_of(items@),
            _ => Seq::empty(),
        },
        succeeded_spec(Json::Object(members)) <==> member_in(members@, "success"@) == Some(
            Json::Bool(true),
        ),
{
}

/// What a change of a TXT record does, step by step: the zone is searched for and its records
/// with the name listed; each of these is deleted; then, where a value is wanted, a record
/// with it is made, with a life of a minute.
pub proof fn txt_changes_go_step_by_step(
    domain: Seq<char>,
    goal: Option<Seq<char>>,
    zone: Seq<char>,
    ids: Seq<Seq<char>>,
    next: int,
    answer: Json,
)
    requires
        0 <= next < ids.len(),
    ensures
        txt_step_spec(domain, goal, TxtStageView::FindingZone, TxtEvent::Answered(answer))
            == match zone_id_spec(answer) {
            Some(found) => (
                TxtStageView::Listing(found),
                TxtActionView::ListRecords {
                    url: records_url_spec(found),
                    name: record_name_spec(domain),
                },
            ),
            None => (TxtStageView::Done, TxtActionView::Fail(TxtError::ZoneNotFound)),
        },
        txt_step_spec(
            domain,
            goal,
            TxtStageView::Deleting(zone, ids, next),
            TxtEvent::Deleted,
        ).1 == if next + 1 < ids.len() {
            TxtActionView::DeleteRecord(record_url_spec(zone, ids[next + 1]))
        } else {
            match goal {
                Some(value) => TxtActionView::CreateRecord {
                    url: records_url_spec(zone),
                    name: record_name_spec(domain),
                    content: value,
                    ttl: 60,
                },
                None => TxtActionView::Finish,
            }
        },
        txt_step_spec(domain, goal, TxtStageView::Creating, TxtEvent::Answered(answer)).1
            == if succeeded_spec(answer) {
            TxtActionView::Finish
        } else {
            TxtActionView::Fail(TxtError::Refused)
        },
{
}

/// What is said of stages and actions is all that is in them.
pub proof fn txt_changes_keep_everything(
    zone: String,
    ids: Vec<String>,
    next: usize,
    url: String,
    name: String,
    content: String,
    ttl: u32,
    i: int,
)
    ensures
        TxtStage::Listing(zone)@ == TxtStageView::Listing(zone@),
        TxtStage::Deleting(zone, ids, next)@ == TxtStageView::Deleting(
            zone@,
            ids@.map_values(|s: String| s@),
            next as int,
        ),
        texts(ids@).len() == ids@.len(),
        0 <= i < ids@.len() ==> texts(ids@)[i] == ids@[i]@,
        TxtAction::FindZone(name)@ == TxtActionView::FindZone(name@),
        (TxtAction::ListRecords { url, name })@ == (TxtActionView::ListRecords {
            url: url@,
            name: name@,
        }),
        TxtAction::DeleteRecord(url)@ == TxtActionView::DeleteRecord(url@),
        (TxtAction::CreateRecord { url, name, content, ttl })@ == (TxtActionView::CreateRecord {
            url: url@,
            name: name@,
            content: content@,
            ttl: ttl as int,
        }),
        goal_view(TxtGoal::Hold(content)) == Some(content@),
        goal_view(TxtGoal::Clear) is None,
{
}

/// Every stage goes on with whatever comes of its own action.
pub proof fn every_txt_outcome_is_expected(
    zone: Seq<char>,
    ids: Seq<Seq<char>>,
    next: int,
    answer: Json,
)
    requires
        0 <= next < ids.len(),
    ensures
        txt_expects(TxtStageView::FindingZone, TxtEvent::Answered(answer)),
        txt_expects(TxtStageView::Listing(zone), TxtEvent::Answered(answer)),
        txt_expects(TxtStageView::Deleting(zone, ids, next), TxtEvent::Deleted),
        txt_expects(TxtStageView::Creating, TxtEvent::Answered(answer)),
{
}

/// An answer that is no object lists no records and says no success.
pub proof fn other_answers_say_nothing(response: Json)
    requires
        !(response is Object),
    ensures
        record_ids_spec(response).len() == 0,
        !succeeded_spec(response),
        zone_id_spec(response) is None,
{
}

} // verus!
