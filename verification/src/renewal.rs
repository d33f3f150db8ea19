//! The renewal of a certificate.
use crate::csr::SigningRequest;
use crate::text::texts;
use vstd::prelude::*;

verus! {

/// The kind of a challenge.
#[derive(Debug, Clone, Copy, PartialEq, Eq, Structural)]
pub enum ChallengeKind {
    Http01,
    Dns01,
    TlsAlpn01,
    Other,
}

/// A way to prove control of a domain.
#[derive(Debug)]
pub struct Challenge {
    pub kind: ChallengeKind,
    pub url: String,
    /// What the TXT record is to hold.
    pub dns_value: String,
}

/// A domain to prove control of, and the ways to do it.
#[derive(Debug)]
pub struct Authorization {
    pub domain: String,
    pub challenges: Vec<Challenge>,
}

/// What a [`Challenge`] says.
pub struct ChallengeView {
    pub kind: ChallengeKind,
    pub url: Seq<char>,
    pub dns_value: Seq<char>,
}

/// What an [`Authorization`] says.
pub struct AuthorizationView {
    pub domain: Seq<char>,
    pub challenges: Seq<ChallengeView>,
}

impl View for Challenge {
    type V = ChallengeView;

    open spec fn view(&self) -> ChallengeView {
        ChallengeView { kind: self.kind, url: self.url@, dns_value: self.dns_value@ }
    }
}

impl View for Authorization {
    type V = AuthorizationView;

    open spec fn view(&self) -> AuthorizationView {
        AuthorizationView { domain: self.domain@, challenges: challenge_views(self.challenges@) }
    }
}

/// What each challenge says.
pub open spec fn challenge_views(challenges: Seq<Challenge>) -> Seq<ChallengeView> {
    challenges.map_values(|c: Challenge| c@)
}

/// What each authorization says.
pub open spec fn authorization_views(auths: Seq<Authorization>) -> Seq<AuthorizationView> {
    auths.map_values(|a: Authorization| a@)
}

/// The first DNS challenge among challenges.
pub open spec fn dns_challenge(challenges: Seq<ChallengeView>) -> Option<ChallengeView>
    decreases challenges.len(),
{
    if challenges.len() == 0 {
        None
    } else if challenges[0].kind == ChallengeKind::Dns01 {
        Some(challenges[0])
    } else {
        dns_challenge(challenges.skip(1))
    }
}

fn find_dns_challenge(challenges: &Vec<Challenge>) -> (r: Option<&Challenge>)
    ensures
        match r {
            Some(c) => dns_challenge(challenge_views(challenges@)) == Some(c@),
            None => dns_challenge(challenge_views(challenges@)) is None,
        },
{
    let ghost views = challenge_views(challenges@);
    let mut i: usize = 0;
    proof {
        assert(views.skip(0) =~= views);
    }
    while i < challenges.len()
        invariant
            i <= challenges.len(),
            views == challenge_views(challenges@),
            dns_challenge(views) == dns_challenge(views.skip(i as int)),
        decreases challenges.len() - i,
    {
        assert(views.skip(i as int)[0] == challenges@[i as int]@);
        if challenges[i].kind == ChallengeKind::Dns01 {
            return Some(&challenges[i]);
        }
        proof {
            assert(views.skip(i as int).skip(1) =~= views.skip(i + 1));
        }
        i = i + 1;
    }
    None
}

/// The state of an order.
#[derive(Debug, Clone, Copy, PartialEq, Eq, Structural)]
pub enum OrderStatus {
    Pending,
    Ready,
    Processing,
    Valid,
    Invalid,
}

/// How far a renewal has come.
#[derive(Debug, Clone, Copy, PartialEq, Eq, Structural)]
pub enum RenewalStage {
    OpeningAccount,
    PlacingOrder,
    Authorizing,
    /// The TXT record for the authorization at this position is being set.
    SettingTxt(usize),
    /// It is being given time to spread.
    Propagating(usize),
    /// The challenge is being announced as met.
    Announcing(usize),
    /// A moment passes before the order is looked at.
    OrderPause,
    /// The order is being looked at.
    OrderPoll,
    /// The key and the signing request are being made.
    MakingRequest,
    /// The signing request is being handed in.
    Finalizing,
    /// A moment passes before the certificate is asked for.
    CertificatePause,
    /// The certificate is being asked for.
    CertificatePoll,
    /// The directory of the certificate file is being made.
    PreparingCertificate,
    /// The directory of the key file is being made.
    PreparingKey,
    WritingCertificate,
    WritingKey,
    /// The TXT record of the domain at this position is being cleared.
    CleaningUp(usize),
    Done,
    Failed,
}

/// What came of the last action of a renewal.
pub enum RenewalEvent {
    AccountOpened,
    Ordered,
    Authorized(Vec<Authorization>),
    TxtSet,
    Waited,
    Announced,
    /// The order's state, and the nanoseconds since its polling began.
    OrderState(OrderStatus, u128),
    RequestMade(SigningRequest),
    Finalized,
    /// The certificate chain in PEM if there is one yet, and the nanoseconds since its
    /// polling began.
    Certificate(Option<String>, u128),
    DirectoryMade,
    Written,
    /// The TXT record was cleared, or not.
    CleanedUp(bool),
}

/// Why a renewal failed.
#[derive(Debug, Clone, Copy, PartialEq, Eq, Structural)]
pub enum RenewalError {
    NoDnsChallenge,
    OrderInvalid,
    OrderTimeout,
    CertificateTimeout,
}

impl RenewalError {
    /// Says why the renewal failed.
    pub fn message(&self) -> (r: &'static str)
        ensures
            r@ == match self {
                RenewalError::NoDnsChallenge => "No DNS-01 challenge found in authorization"@,
                RenewalError::OrderInvalid => "ACME order became invalid"@,
                RenewalError::OrderTimeout => "Timed out waiting for ACME order Ready state"@,
                RenewalError::CertificateTimeout => "Timed out waiting for ACME certificate"@,
            },
    {
        match self {
            RenewalError::NoDnsChallenge => "No DNS-01 challenge found in authorization",
            RenewalError::OrderInvalid => "ACME order became invalid",
            RenewalError::OrderTimeout => "Timed out waiting for ACME order Ready state",
            RenewalError::CertificateTimeout => "Timed out waiting for ACME certificate",
        }
    }
}

/// What to do next in a renewal.
pub enum RenewalAction {
    OpenAccount,
    /// Order a certificate for these domains.
    PlaceOrder(Vec<String>),
    FetchAuthorizations,
    /// Have the TXT record of the domain hold the value.
    SetTxt { domain: String, value: String },
    /// Wait for this many seconds.
    Wait(u64),
    /// Announce that the challenge at this URL is met.
    Announce(String),
    PollOrder,
    /// Make a key and a signing request for these domains.
    MakeRequest(Vec<String>),
    /// Hand in this signing request.
    Finalize(Vec<u8>),
    PollCertificate,
    /// Make the directory that this file is to stand in, where it is missing.
    MakeDirectory(String),
    /// Have the file at this path hold this content.
    WriteFile { path: String, content: String },
    /// Clear the TXT record of the domain.
    ClearTxt(String),
    Finish,
    Fail(RenewalError),
}

/// Seconds that a TXT record is given to spread.
pub const PROPAGATION_SECS: u64 = 30;

/// Seconds between two looks at an order or a certificate.
pub const POLL_SECS: u64 = 5;

/// Nanoseconds after which polling is given up: five minutes.
pub const POLL_LIMIT_NANOS: u128 = 300_000_000_000;

/// What a [`RenewalEvent`] says.
pub enum RenewalEventView {
    AccountOpened,
    Ordered,
    Authorized(Seq<AuthorizationView>),
    TxtSet,
    Waited,
    Announced,
    OrderState(OrderStatus, u128),
    RequestMade { der: Seq<u8>, key_pem: Seq<char> },
    Finalized,
    Certificate(Option<Seq<char>>, u128),
    DirectoryMade,
    Written,
    CleanedUp(bool),
}

/// What a [`RenewalAction`] says.
pub enum RenewalActionView {
    OpenAccount,
    PlaceOrder(Seq<Seq<char>>),
    FetchAuthorizations,
    SetTxt { domain: Seq<char>, value: Seq<char> },
    Wait(u64),
    Announce(Seq<char>),
    PollOrder,
    MakeRequest(Seq<Seq<char>>),
    Finalize(Seq<u8>),
    PollCertificate,
    MakeDirectory(Seq<char>),
    WriteFile { path: Seq<char>, content: Seq<char> },
    ClearTxt(Seq<char>),
    Finish,
    Fail(RenewalError),
}

/// What a [`Renewal`] says.
pub struct RenewalView {
    pub domains: Seq<Seq<char>>,
    pub crt_path: Seq<char>,
    pub key_path: Seq<char>,
    pub authorizations: Seq<AuthorizationView>,
    pub key_pem: Seq<char>,
    pub chain: Seq<char>,
    pub stage: RenewalStage,
}

/// The renewal of a certificate.
pub struct Renewal {
    pub domains: Vec<String>,
    /// Where the certificate goes.
    pub crt_path: String,
    /// Where the key goes.
    pub key_path: String,
    pub authorizations: Vec<Authorization>,
    /// The private key in PEM, once it is made.
    pub key_pem: String,
    /// The certificate chain in PEM, once it is there.
    pub chain: String,
    pub stage: RenewalStage,
}

impl View for RenewalEvent {
    type V = RenewalEventView;

    open spec fn view(&self) -> RenewalEventView {
        match self {
            RenewalEvent::AccountOpened => RenewalEventView::AccountOpened,
            RenewalEvent::Ordered => RenewalEventView::Ordered,
            RenewalEvent::Authorized(found) => RenewalEventView::Authorized(
                authorization_views(found@),
            ),
            RenewalEvent::TxtSet => RenewalEventView::TxtSet,
            RenewalEvent::Waited => RenewalEventView::Waited,
            RenewalEvent::Announced => RenewalEventView::Announced,
            RenewalEvent::OrderState(status, elapsed) => RenewalEventView::OrderState(
                *status,
                *elapsed,
            ),
            RenewalEvent::RequestMade(made) => RenewalEventView::RequestMade {
                der: made.der@,
                key_pem: made.key_pem@,
            },
            RenewalEvent::Finalized => RenewalEventView::Finalized,
            RenewalEvent::Certificate(chain, elapsed) => RenewalEventView::Certificate(
                match chain {
                    Some(c) => Some(c@),
                    None => None,
                },
                *elapsed,
            ),
            RenewalEvent::DirectoryMade => RenewalEventView::DirectoryMade,
            RenewalEvent::Written => RenewalEventView::Written,
            RenewalEvent::CleanedUp(ok) => RenewalEventView::CleanedUp(*ok),
        }
    }
}

impl View for RenewalAction {
    type V = RenewalActionView;

    open spec fn view(&self) -> RenewalActionView {
        match self {
            RenewalAction::OpenAccount => RenewalActionView::OpenAccount,
            RenewalAction::PlaceOrder(domains) => RenewalActionView::PlaceOrder(texts(domains@)),
            RenewalAction::FetchAuthorizations => RenewalActionView::FetchAuthorizations,
            RenewalAction::SetTxt { domain, value } => RenewalActionView::SetTxt {
                domain: domain@,
                value: value@,
            },
            RenewalAction::Wait(secs) => RenewalActionView::Wait(*secs),
            RenewalAction::Announce(url) => RenewalActionView::Announce(url@),
            RenewalAction::PollOrder => RenewalActionView::PollOrder,
            RenewalAction::MakeRequest(domains) => RenewalActionView::MakeRequest(texts(domains@)),
            RenewalAction::Finalize(der) => RenewalActionView::Finalize(der@),
            RenewalAction::PollCertificate => RenewalActionView::PollCertificate,
            RenewalAction::MakeDirectory(path) => RenewalActionView::MakeDirectory(path@),
            RenewalAction::WriteFile { path, content } => RenewalActionView::WriteFile {
                path: path@,
                content: content@,
            },
            RenewalAction::ClearTxt(domain) => RenewalActionView::ClearTxt(domain@),
            RenewalAction::Finish => RenewalActionView::Finish,
            RenewalAction::Fail(e) => RenewalActionView::Fail(*e),
        }
    }
}

impl View for Renewal {
    type V = RenewalView;

    open spec fn view(&self) -> RenewalView {
        RenewalView {
            domains: texts(self.domains@),
            crt_path: self.crt_path@,
            key_path: self.key_path@,
            authorizations: authorization_views(self.authorizations@),
            key_pem: self.key_pem@,
            chain: self.chain@,
            stage: self.stage,
        }
    }
}

impl RenewalView {
    /// The renewal at another stage.
    pub open spec fn at(self, stage: RenewalStage) -> RenewalView {
        RenewalView { stage, ..self }
    }

    /// Whether there is an authorization at position `i`, with a DNS challenge.
    pub open spec fn has_challenge(self, i: usize) -> bool {
        i < self.authorizations.len() && dns_challenge(
            self.authorizations[i as int].challenges,
        ) is Some
    }

    /// Whether the renewal is one that can be gone on with: positions are positions, and
    /// an authorization that is being worked on has a DNS challenge.
    pub open spec fn wf(self) -> bool {
        match self.stage {
            RenewalStage::SettingTxt(i) => self.has_challenge(i),
            RenewalStage::Propagating(i) => self.has_challenge(i),
            RenewalStage::Announcing(i) => self.has_challenge(i),
            RenewalStage::CleaningUp(i) => i < self.domains.len(),
            _ => true,
        }
    }
}

/// A renewal that starts.
pub open spec fn renewal_start_spec(
    domains: Seq<Seq<char>>,
    crt_path: Seq<char>,
    key_path: Seq<char>,
) -> RenewalView {
    RenewalView {
        domains,
        crt_path,
        key_path,
        authorizations: Seq::empty(),
        key_pem: Seq::empty(),
        chain: Seq::empty(),
        stage: RenewalStage::OpeningAccount,
    }
}

/// The renewal from the authorization at position `i` on.
pub open spec fn challenge_from(s: RenewalView, i: int) -> (RenewalView, RenewalActionView) {
    if i < s.authorizations.len() {
        match dns_challenge(s.authorizations[i].challenges) {
            Some(c) => (
                s.at(RenewalStage::SettingTxt(i as usize)),
                RenewalActionView::SetTxt {
                    domain: s.authorizations[i].domain,
                    value: c.dns_value,
                },
            ),
            None => (
                s.at(RenewalStage::Failed),
                RenewalActionView::Fail(RenewalError::NoDnsChallenge),
            ),
        }
    } else {
        (s.at(RenewalStage::OrderPause), RenewalActionView::Wait(POLL_SECS))
    }
}

/// The clean-up from the domain at position `i` on.
pub open spec fn clean_up_from(s: RenewalView, i: int) -> (RenewalView, RenewalActionView) {
    if i < s.domains.len() {
        (s.at(RenewalStage::CleaningUp(i as usize)), RenewalActionView::ClearTxt(s.domains[i]))
    } else {
        (s.at(RenewalStage::Done), RenewalActionView::Finish)
    }
}

/// Whether an event is one that comes of the stage's own action.
pub open spec fn renewal_expects(stage: RenewalStage, event: RenewalEventView) -> bool {
    match stage {
        RenewalStage::OpeningAccount => event is AccountOpened,
        RenewalStage::PlacingOrder => event is Ordered,
        RenewalStage::Authorizing => event is Authorized,
        RenewalStage::SettingTxt(_) => event is TxtSet,
        RenewalStage::Propagating(_) => event is Waited,
        RenewalStage::Announcing(_) => event is Announced,
        RenewalStage::OrderPause => event is Waited,
        RenewalStage::OrderPoll => event is OrderState,
        RenewalStage::MakingRequest => event is RequestMade,
        RenewalStage::Finalizing => event is Finalized,
        RenewalStage::CertificatePause => event is Waited,
        RenewalStage::CertificatePoll => event is Certificate,
        RenewalStage::PreparingCertificate => event is DirectoryMade,
        RenewalStage::PreparingKey => event is DirectoryMade,
        RenewalStage::WritingCertificate => event is Written,
        RenewalStage::WritingKey => event is Written,
        RenewalStage::CleaningUp(_) => event is CleanedUp,
        RenewalStage::Done => false,
        RenewalStage::Failed => false,
    }
}

/// How a renewal goes on.
pub open spec fn renewal_step_spec(s: RenewalView, event: RenewalEventView) -> (
    RenewalView,
    RenewalActionView,
) {
    match (s.stage, event) {
        (RenewalStage::OpeningAccount, _) => (
            s.at(RenewalStage::PlacingOrder),
            RenewalActionView::PlaceOrder(s.domains),
        ),
        (RenewalStage::PlacingOrder, _) => (
            s.at(RenewalStage::Authorizing),
            RenewalActionView::FetchAuthorizations,
        ),
        (RenewalStage::Authorizing, RenewalEventView::Authorized(found)) => challenge_from(
            RenewalView { authorizations: found, ..s },
            0,
        ),
        (RenewalStage::SettingTxt(i), _) => (
            s.at(RenewalStage::Propagating(i)),
            RenewalActionView::Wait(PROPAGATION_SECS),
        ),
        (RenewalStage::Propagating(i), _) => (
            s.at(RenewalStage::Announcing(i)),
            RenewalActionView::Announce(
                dns_challenge(s.authorizations[i as int].challenges)->0.url,
            ),
        ),
        (RenewalStage::Announcing(i), _) => challenge_from(s, i + 1),
        (RenewalStage::OrderPause, _) => (
            s.at(RenewalStage::OrderPoll),
            RenewalActionView::PollOrder,
        ),
        (RenewalStage::OrderPoll, RenewalEventView::OrderState(OrderStatus::Ready, _)) => (
            s.at(RenewalStage::MakingRequest),
            RenewalActionView::MakeRequest(s.domains),
        ),
        (RenewalStage::OrderPoll, RenewalEventView::OrderState(OrderStatus::Invalid, _)) => (
            s.at(RenewalStage::Failed),
            RenewalActionView::Fail(RenewalError::OrderInvalid),
        ),
        (RenewalStage::OrderPoll, RenewalEventView::OrderState(_, elapsed)) => if elapsed
            > POLL_LIMIT_NANOS {
            (s.at(RenewalStage::Failed), RenewalActionView::Fail(RenewalError::OrderTimeout))
        } else {
            (s.at(RenewalStage::OrderPause), RenewalActionView::Wait(POLL_SECS))
        },
        (RenewalStage::MakingRequest, RenewalEventView::RequestMade { der, key_pem }) => (
            RenewalView { key_pem, stage: RenewalStage::Finalizing, ..s },
            RenewalActionView::Finalize(der),
        ),
        (RenewalStage::Finalizing, _) => (
            s.at(RenewalStage::CertificatePause),
            RenewalActionView::Wait(POLL_SECS),
        ),
        (RenewalStage::CertificatePause, _) => (
            s.at(RenewalStage::CertificatePoll),
            RenewalActionView::PollCertificate,
        ),
        (RenewalStage::CertificatePoll, RenewalEventView::Certificate(found, elapsed)) => {
            match found {
                Some(chain) => (
                    RenewalView { chain, stage: RenewalStage::PreparingCertificate, ..s },
                    RenewalActionView::MakeDirectory(s.crt_path),
                ),
                None => if elapsed > POLL_LIMIT_NANOS {
                    (
                        s.at(RenewalStage::Failed),
                        RenewalActionView::Fail(RenewalError::CertificateTimeout),
                    )
                } else {
                    (s.at(RenewalStage::CertificatePause), RenewalActionView::Wait(POLL_SECS))
                },
            }
        },
        (RenewalStage::PreparingCertificate, _) => (
            s.at(RenewalStage::PreparingKey),
            RenewalActionView::MakeDirectory(s.key_path),
        ),
        (RenewalStage::PreparingKey, _) => (
            s.at(RenewalStage::WritingCertificate),
            RenewalActionView::WriteFile { path: s.crt_path, content: s.chain },
        ),
        (RenewalStage::WritingCertificate, _) => (
            s.at(RenewalStage::WritingKey),
            RenewalActionView::WriteFile { path: s.key_path, content: s.key_pem },
        ),
        (RenewalStage::WritingKey, _) => clean_up_from(s, 0),
        (RenewalStage::CleaningUp(i), _) => clean_up_from(s, i + 1),
        _ => (s, RenewalActionView::Finish),
    }
}

fn copy_texts(v: &Vec<String>) -> (r: Vec<String>)
    ensures
        texts(r@) == texts(v@),
{
    let r = v.clone();
    assert(texts(r@) =~= texts(v@));
    r
}

impl Renewal {
    /// Starts the renewal of a certificate for domains, which goes to `crt_path`, and its key
    /// to `key_path`.
    pub fn start(domains: Vec<String>, crt_path: String, key_path: String) -> (r: (
        Renewal,
        RenewalAction,
    ))
        ensures
            r.0@ == renewal_start_spec(texts(domains@), crt_path@, key_path@),
            r.0@.wf(),
            r.1@ == RenewalActionView::OpenAccount,
    {
        let r = Renewal {
            domains,
            crt_path,
            key_path,
            authorizations: Vec::new(),
            key_pem: String::new(),
            chain: String::new(),
            stage: RenewalStage::OpeningAccount,
        };
        proof {
            assert(r@.authorizations =~= Seq::<AuthorizationView>::empty());
            assert(r@.key_pem =~= Seq::<char>::empty());
            assert(r@.chain =~= Seq::<char>::empty());
        }
        (r, RenewalAction::OpenAccount)
    }

    fn challenge(&mut self, i: usize) -> (r: RenewalAction)
        ensures
            final(self)@.wf(),
            (final(self)@, r@) == challenge_from(old(self)@, i as int),
    {
        if i < self.authorizations.len() {
            assert(self@.authorizations[i as int] == self.authorizations@[i as int]@);
            match find_dns_challenge(&self.authorizations[i].challenges) {
                Some(c) => {
                    let value = c.dns_value.clone();
                    let domain = self.authorizations[i].domain.clone();
                    self.stage = RenewalStage::SettingTxt(i);
                    RenewalAction::SetTxt { domain, value }
                },
                None => {
                    self.stage = RenewalStage::Failed;
                    RenewalAction::Fail(RenewalError::NoDnsChallenge)
                },
            }
        } else {
            self.stage = RenewalStage::OrderPause;
            RenewalAction::Wait(POLL_SECS)
        }
    }

    fn clean_up(&mut self, i: usize) -> (r: RenewalAction)
        ensures
            final(self)@.wf(),
            (final(self)@, r@) == clean_up_from(old(self)@, i as int),
    {
        if i < self.domains.len() {
            assert(self@.domains[i as int] == self.domains@[i as int]@);
            self.stage = RenewalStage::CleaningUp(i);
            RenewalAction::ClearTxt(self.domains[i].clone())
        } else {
            self.stage = RenewalStage::Done;
            RenewalAction::Finish
        }
    }

    /// Goes on with a renewal after an event.
    pub fn step(&mut self, event: RenewalEvent) -> (r: RenewalAction)
        requires
            old(self)@.wf(),
            renewal_expects(old(self)@.stage, event@),
        ensures
            final(self)@.wf(),
            (final(self)@, r@) == renewal_step_spec(old(self)@, event@),
    {
        match (self.stage, event) {
            (RenewalStage::OpeningAccount, _) => {
                self.stage = RenewalStage::PlacingOrder;
                RenewalAction::PlaceOrder(copy_texts(&self.domains))
            },
            (RenewalStage::PlacingOrder, _) => {
                self.stage = RenewalStage::Authorizing;
                RenewalAction::FetchAuthorizations
            },
            (RenewalStage::Authorizing, RenewalEvent::Authorized(found)) => {
                self.authorizations = found;
                self.challenge(0)
            },
            (RenewalStage::SettingTxt(i), _) => {
                self.stage = RenewalStage::Propagating(i);
                RenewalAction::Wait(PROPAGATION_SECS)
            },
            (RenewalStage::Propagating(i), _) => {
                assert(self@.authorizations[i as int] == self.authorizations@[i as int]@);
                match find_dns_challenge(&self.authorizations[i].challenges) {
                    Some(c) => {
                        let url = c.url.clone();
                        self.stage = RenewalStage::Announcing(i);
                        RenewalAction::Announce(url)
                    },
                    None => RenewalAction::Fail(RenewalError::NoDnsChallenge),
                }
            },
            (RenewalStage::Announcing(i), _) => {
                assert(i < self.authorizations.len());
                self.challenge(i + 1)
            },
            (RenewalStage::OrderPause, _) => {
                self.stage = RenewalStage::OrderPoll;
                RenewalAction::PollOrder
            },
            (RenewalStage::OrderPoll, RenewalEvent::OrderState(status, elapsed)) => match status {
                OrderStatus::Ready => {
                    self.stage = RenewalStage::MakingRequest;
                    RenewalAction::MakeRequest(copy_texts(&self.domains))
                },
                OrderStatus::Invalid => {
                    self.stage = RenewalStage::Failed;
                    RenewalAction::Fail(RenewalError::OrderInvalid)
                },
                _ => if elapsed > POLL_LIMIT_NANOS {
                    self.stage = RenewalStage::Failed;
                    RenewalAction::Fail(RenewalError::OrderTimeout)
                } else {
                    self.stage = RenewalStage::OrderPause;
                    RenewalAction::Wait(POLL_SECS)
                },
            },
            (RenewalStage::MakingRequest, RenewalEvent::RequestMade(made)) => {
                self.key_pem = made.key_pem;
                self.stage = RenewalStage::Finalizing;
                RenewalAction::Finalize(made.der)
            },
            (RenewalStage::Finalizing, _) => {
                self.stage = RenewalStage::CertificatePause;
                RenewalAction::Wait(POLL_SECS)
            },
            (RenewalStage::CertificatePause, _) => {
                self.stage = RenewalStage::CertificatePoll;
                RenewalAction::PollCertificate
            },
            (RenewalStage::CertificatePoll, RenewalEvent::Certificate(found, elapsed)) => {
                match found {
                    Some(chain) => {
                        self.chain = chain;
                        self.stage = RenewalStage::PreparingCertificate;
                        RenewalAction::MakeDirectory(self.crt_path.clone())
                    },
                    None => if elapsed > POLL_LIMIT_NANOS {
                        self.stage = RenewalStage::Failed;
                        RenewalAction::Fail(RenewalError::CertificateTimeout)
                    } else {
                        self.stage = RenewalStage::CertificatePause;
                        RenewalAction::Wait(POLL_SECS)
                    },
                }
            },
            (RenewalStage::PreparingCertificate, _) => {
                self.stage = RenewalStage::PreparingKey;
                RenewalAction::MakeDirectory(self.key_path.clone())
            },
            (RenewalStage::PreparingKey, _) => {
                self.stage = RenewalStage::WritingCertificate;
                RenewalAction::WriteFile {
                    path: self.crt_path.clone(),
                    content: self.chain.clone(),
                }
            },
            (RenewalStage::WritingCertificate, _) => {
                self.stage = RenewalStage::WritingKey;
                RenewalAction::WriteFile {
                    path: self.key_path.clone(),
                    content: self.key_pem.clone(),
                }
            },
            (RenewalStage::WritingKey, _) => self.clean_up(0),
            (RenewalStage::CleaningUp(i), _) => {
                assert(i < self.domains.len());
                self.clean_up(i + 1)
            },
            // No other event comes of the stage's own action.
            _ => RenewalAction::Finish,
        }
    }
}

/// The TXT record of an authorization is set, then given time to spread, then its
/// challenge announced as met, and only then the next authorization is turned to.
pub proof fn txt_spreads_before_announcement(s: RenewalView, i: usize)
    requires
        s.has_challenge(i),
    ensures
        ({
            let challenge = dns_challenge(s.authorizations[i as int].challenges)->0;
            &&& challenge_from(s, i as int) == (
                s.at(RenewalStage::SettingTxt(i)),
                RenewalActionView::SetTxt {
                    domain: s.authorizations[i as int].domain,
                    value: challenge.dns_value,
                },
            )
            &&& renewal_step_spec(s.at(RenewalStage::SettingTxt(i)), RenewalEventView::TxtSet) == (
                s.at(RenewalStage::Propagating(i)),
                RenewalActionView::Wait(30),
            )
            &&& renewal_step_spec(s.at(RenewalStage::Propagating(i)), RenewalEventView::Waited) == (
                s.at(RenewalStage::Announcing(i)),
                RenewalActionView::Announce(challenge.url),
            )
            &&& renewal_step_spec(s.at(RenewalStage::Announcing(i)), RenewalEventView::Announced)
                == challenge_from(s, i + 1)
        }),
{
}

/// Where a renewal that found these authorizations stands when the challenges of the first
/// `n` of them were announced as met.
pub open spec fn after_announcements(s: RenewalView, found: Seq<AuthorizationView>, n: nat) -> (
    RenewalView,
    RenewalActionView,
)
    decreases n,
{
    if n == 0 {
        renewal_step_spec(s, RenewalEventView::Authorized(found))
    } else {
        let set = after_announcements(s, found, (n - 1) as nat);
        let spread = renewal_step_spec(set.0, RenewalEventView::TxtSet);
        let announced = renewal_step_spec(spread.0, RenewalEventView::Waited);
        renewal_step_spec(announced.0, RenewalEventView::Announced)
    }
}

/// The authorizations are worked through in their order, none left out, and the order is
/// turned to when the challenge of the last one is announced. An authorization without a
/// DNS challenge ends the renewal when it is reached.
pub proof fn every_authorization_is_met(s: RenewalView, found: Seq<AuthorizationView>, n: nat)
    requires
        s.stage == RenewalStage::Authorizing,
        n <= found.len() <= usize::MAX,
        forall|i: int| 0 <= i < n ==> dns_challenge((#[trigger] found[i]).challenges) is Some,
    ensures
        after_announcements(s, found, n) == challenge_from(
            RenewalView { authorizations: found, ..s },
            n as int,
        ),
        n < found.len() && dns_challenge(found[n as int].challenges) is None
            ==> after_announcements(s, found, n).1 == RenewalActionView::Fail(
            RenewalError::NoDnsChallenge,
        ),
        n == found.len() ==> after_announcements(s, found, n) == (
            RenewalView { authorizations: found, stage: RenewalStage::OrderPause, ..s },
            RenewalActionView::Wait(5),
        ),
    decreases n,
{
    if n > 0 {
        every_authorization_is_met(s, found, (n - 1) as nat);
        assert(dns_challenge(found[n - 1].challenges) is Some);
        txt_spreads_before_announcement(
            RenewalView { authorizations: found, ..s },
            (n - 1) as usize,
        );
    }
}

/// A key is made only for an order that is ready, files are written only when there is a
/// certificate, and TXT records are cleared, and a renewal ends well, only after that.
pub proof fn nothing_comes_too_early(s: RenewalView, event: RenewalEventView)
    requires
        renewal_expects(s.stage, event),
    ensures
        ({
            let (next, action) = renewal_step_spec(s, event);
            &&& (action is MakeRequest ==> event matches RenewalEventView::OrderState(
                OrderStatus::Ready,
                _,
            ))
            &&& (next.stage == RenewalStage::PreparingCertificate
                ==> event matches RenewalEventView::Certificate(Some(_), _))
            &&& (action == RenewalActionView::Finish || action is ClearTxt ==> s.stage
                == RenewalStage::WritingKey || s.stage is CleaningUp)
            &&& (next.stage == RenewalStage::Done <==> action == RenewalActionView::Finish)
            &&& (next.stage == RenewalStage::Failed <==> action is Fail)
        }),
{
}

/// Polling goes on for five minutes at most.
pub proof fn polling_is_limited(
    s: RenewalView,
    status: OrderStatus,
    found: Option<Seq<char>>,
    elapsed: u128,
)
    requires
        elapsed > POLL_LIMIT_NANOS,
    ensures
        !(renewal_step_spec(
            s.at(RenewalStage::OrderPoll),
            RenewalEventView::OrderState(status, elapsed),
        ).1 is Wait),
        !(renewal_step_spec(
            s.at(RenewalStage::CertificatePoll),
            RenewalEventView::Certificate(found, elapsed),
        ).1 is Wait),
{
}

/// Where the clean-up stands when the TXT records of the first domains were cleared, or
/// not.
pub open spec fn after_clean_ups(s: RenewalView, outcomes: Seq<bool>) -> (
    RenewalView,
    RenewalActionView,
)
    decreases outcomes.len(),
{
    if outcomes.len() == 0 {
        renewal_step_spec(s, RenewalEventView::Written)
    } else {
        renewal_step_spec(
            after_clean_ups(s, outcomes.drop_last()).0,
            RenewalEventView::CleanedUp(outcomes.last()),
        )
    }
}

/// Once the files are written the TXT record of every domain is cleared in turn, whether
/// or not an earlier one could be, and then the renewal ends well.
pub proof fn every_domain_is_cleaned_up(s: RenewalView, outcomes: Seq<bool>)
    requires
        s.stage == RenewalStage::WritingKey,
        outcomes.len() <= s.domains.len() <= usize::MAX,
    ensures
        after_clean_ups(s, outcomes) == clean_up_from(s, outcomes.len() as int),
        outcomes.len() < s.domains.len() ==> after_clean_ups(s, outcomes).1
            == RenewalActionView::ClearTxt(s.domains[outcomes.len() as int]),
        outcomes.len() == s.domains.len() ==> after_clean_ups(s, outcomes).1
            == RenewalActionView::Finish,
    decreases outcomes.len(),
{
    if outcomes.len() > 0 {
        every_domain_is_cleaned_up(s, outcomes.drop_last());
    }
}

/// Where a renewal stands after events, and all actions that it called for, in their order.
pub open spec fn run(start: RenewalView, events: Seq<RenewalEventView>) -> (
    RenewalView,
    Seq<RenewalActionView>,
)
    decreases events.len(),
{
    if events.len() == 0 {
        (start, seq![RenewalActionView::OpenAccount])
    } else {
        let (s, actions) = run(start, events.drop_last());
        let (next, action) = renewal_step_spec(s, events.last());
        (next, actions.push(action))
    }
}

/// Whether each event is one that comes of the action before it.
pub open spec fn is_run(start: RenewalView, events: Seq<RenewalEventView>) -> bool
    decreases events.len(),
{
    events.len() == 0 || (is_run(start, events.drop_last()) && renewal_expects(
        run(start, events.drop_last()).0.stage,
        events.last(),
    ))
}

/// Whether a signing request for that key was made and handed in.
pub open spec fn handed_in(
    events: Seq<RenewalEventView>,
    actions: Seq<RenewalActionView>,
    der: Seq<u8>,
    key_pem: Seq<char>,
) -> bool {
    &&& events.contains(RenewalEventView::RequestMade { der, key_pem })
    &&& actions.contains(RenewalActionView::Finalize(der))
}

/// Whether that certificate chain was issued.
pub open spec fn issued(
    events: Seq<RenewalEventView>,
    chain: Seq<char>,
    elapsed: u128,
) -> bool {
    events.contains(RenewalEventView::Certificate(Some(chain), elapsed))
}

/// Whether an action writes the certificate or the key of the renewal to its file.
spec fn writes_own_file(s: RenewalView, action: RenewalActionView) -> bool {
    ||| action == (RenewalActionView::WriteFile { path: s.crt_path, content: s.chain })
    ||| action == (RenewalActionView::WriteFile { path: s.key_path, content: s.key_pem })
}

spec fn rank(stage: RenewalStage) -> int {
    match stage {
        RenewalStage::Failed => -1,
        RenewalStage::OpeningAccount => 0,
        RenewalStage::PlacingOrder => 1,
        RenewalStage::Authorizing => 2,
        RenewalStage::SettingTxt(_) => 3,
        RenewalStage::Propagating(_) => 3,
        RenewalStage::Announcing(_) => 3,
        RenewalStage::OrderPause => 4,
        RenewalStage::OrderPoll => 4,
        RenewalStage::MakingRequest => 5,
        RenewalStage::Finalizing => 6,
        RenewalStage::CertificatePause => 7,
        RenewalStage::CertificatePoll => 7,
        RenewalStage::PreparingCertificate => 8,
        RenewalStage::PreparingKey => 9,
        RenewalStage::WritingCertificate => 10,
        RenewalStage::WritingKey => 11,
        RenewalStage::CleaningUp(_) => 12,
        RenewalStage::Done => 13,
    }
}

/// What every run keeps: what was done by the time its stage is reached.
spec fn run_invariant(
    start: RenewalView,
    s: RenewalView,
    events: Seq<RenewalEventView>,
    actions: Seq<RenewalActionView>,
) -> bool {
    let n = rank(s.stage);
    &&& s.domains == start.domains && s.crt_path == start.crt_path && s.key_path == start.key_path
    &&& actions.len() == events.len() + 1
    &&& (n == 0 <==> events.len() == 0)
    &&& (n >= 1 ==> actions[1] == RenewalActionView::PlaceOrder(s.domains))
    &&& (forall|k: int| 0 <= k < actions.len() && (#[trigger] actions[k]) is PlaceOrder ==> k == 1)
    &&& (n >= 5 ==> actions.contains(RenewalActionView::MakeRequest(s.domains)))
    &&& (n >= 6 ==> exists|der: Seq<u8>| #[trigger] handed_in(events, actions, der, s.key_pem))
    &&& (n >= 8 ==> exists|elapsed: u128| #[trigger] issued(events, s.chain, elapsed))
    &&& (n >= 8 ==> actions.contains(RenewalActionView::MakeDirectory(s.crt_path)))
    &&& (n >= 9 ==> actions.contains(RenewalActionView::MakeDirectory(s.key_path)))
    &&& (n >= 10 ==> actions.contains(
        RenewalActionView::WriteFile { path: s.crt_path, content: s.chain },
    ))
    &&& (n >= 11 ==> actions.contains(
        RenewalActionView::WriteFile { path: s.key_path, content: s.key_pem },
    ))
    &&& (s.stage matches RenewalStage::CleaningUp(i) ==> i < s.domains.len() && forall|j: int|
        0 <= j <= i ==> actions.contains(RenewalActionView::ClearTxt(#[trigger] s.domains[j])))
    &&& (n == 13 ==> forall|j: int|
        0 <= j < s.domains.len() ==> actions.contains(
            RenewalActionView::ClearTxt(#[trigger] s.domains[j]),
        ))
    &&& (forall|k: int|
        0 <= k < actions.len() && (#[trigger] actions[k]) is WriteFile ==> n >= 10
            && writes_own_file(s, actions[k]))
}

proof fn lemma_push_keeps<A>(s: Seq<A>, x: A)
    ensures
        s.push(x).contains(x),
        forall|y: A| s.contains(y) ==> #[trigger] s.push(x).contains(y),
{
    assert(s.push(x)[s.len() as int] == x);
    assert forall|y: A| s.contains(y) implies #[trigger] s.push(x).contains(y) by {
        let i = choose|i: int| 0 <= i < s.len() && s[i] == y;
        assert(s.push(x)[i] == y);
    }
}

proof fn lemma_step_keeps_invariant(
    start: RenewalView,
    s: RenewalView,
    events: Seq<RenewalEventView>,
    actions: Seq<RenewalActionView>,
    event: RenewalEventView,
)
    requires
        start.domains.len() <= usize::MAX,
        run_invariant(start, s, events, actions),
        renewal_expects(s.stage, event),
    ensures
        ({
            let (next, action) = renewal_step_spec(s, event);
            run_invariant(start, next, events.push(event), actions.push(action))
        }),
{
    let (next, action) = renewal_step_spec(s, event);
    let seen = events.push(event);
    let done = actions.push(action);
    lemma_push_keeps(events, event);
    lemma_push_keeps(actions, action);
    assert forall|k: int| 0 <= k < actions.len() implies #[trigger] done[k] == actions[k] by {}
    if rank(next.stage) >= 6 {
        let der = if let RenewalEventView::RequestMade { der, key_pem } = event {
            der
        } else {
            choose|der: Seq<u8>| #[trigger] handed_in(events, actions, der, s.key_pem)
        };
        assert(handed_in(seen, done, der, next.key_pem));
    }
    if rank(next.stage) >= 8 {
        let elapsed = if let RenewalEventView::Certificate(found, elapsed) = event {
            elapsed
        } else {
            choose|elapsed: u128| #[trigger] issued(events, s.chain, elapsed)
        };
        assert(issued(seen, next.chain, elapsed));
    }
}

proof fn lemma_run_invariant(start: RenewalView, events: Seq<RenewalEventView>)
    requires
        start.stage == RenewalStage::OpeningAccount,
        start.domains.len() <= usize::MAX,
        is_run(start, events),
    ensures
        run_invariant(start, run(start, events).0, events, run(start, events).1),
    decreases events.len(),
{
    if events.len() > 0 {
        let init = events.drop_last();
        let (s, actions) = run(start, init);
        lemma_run_invariant(start, init);
        lemma_step_keeps_invariant(start, s, init, actions, events.last());
        assert(init.push(events.last()) =~= events);
    }
}

/// Whether a renewal at that stage has turned to its files.
pub open spec fn is_writing(stage: RenewalStage) -> bool {
    match stage {
        RenewalStage::WritingCertificate => true,
        RenewalStage::WritingKey => true,
        RenewalStage::CleaningUp(_) => true,
        RenewalStage::Done => true,
        _ => false,
    }
}

/// Nothing is written before the certificate is there: a renewal that failed, or that broke
/// off at a stage before the writing, has called for no file to be written.
pub proof fn failed_renewal_writes_nothing(start: RenewalView, events: Seq<RenewalEventView>)
    requires
        start.stage == RenewalStage::OpeningAccount,
        start.domains.len() <= usize::MAX,
        is_run(start, events),
        !is_writing(run(start, events).0.stage),
    ensures
        forall|k: int|
            0 <= k < run(start, events).1.len() ==> !((
            #[trigger] run(start, events).1[k]) is WriteFile),
{
    lemma_run_invariant(start, events);
}

/// A renewal that ended well placed one order, for exactly the domains; had a key and a
/// signing request made for them and handed that request in; had directories made for both
/// files; wrote the chain that was issued to the certificate file and the key of that request
/// to the key file, and nothing else anywhere; and had the TXT record of every domain cleared.
pub proof fn finished_renewal_is_complete(
    domains: Seq<Seq<char>>,
    crt_path: Seq<char>,
    key_path: Seq<char>,
    events: Seq<RenewalEventView>,
)
    requires
        domains.len() <= usize::MAX,
        is_run(renewal_start_spec(domains, crt_path, key_path), events),
        run(renewal_start_spec(domains, crt_path, key_path), events).0.stage == RenewalStage::Done,
    ensures
        ({
            let (s, actions) = run(renewal_start_spec(domains, crt_path, key_path), events);
            &&& actions.contains(RenewalActionView::PlaceOrder(domains))
            &&& (forall|k: int|
                0 <= k < actions.len() && (#[trigger] actions[k]) is PlaceOrder ==> k == 1)
            &&& actions.contains(RenewalActionView::MakeRequest(domains))
            &&& (exists|der: Seq<u8>| #[trigger] handed_in(events, actions, der, s.key_pem))
            &&& (exists|elapsed: u128| #[trigger] issued(events, s.chain, elapsed))
            &&& actions.contains(RenewalActionView::MakeDirectory(crt_path))
            &&& actions.contains(RenewalActionView::MakeDirectory(key_path))
            &&& actions.contains(
                RenewalActionView::WriteFile { path: crt_path, content: s.chain },
            )
            &&& actions.contains(
                RenewalActionView::WriteFile { path: key_path, content: s.key_pem },
            )
            &&& (forall|k: int|
                0 <= k < actions.len() && (#[trigger] actions[k]) is WriteFile ==> actions[k] == (
                RenewalActionView::WriteFile { path: crt_path, content: s.chain }) || actions[k]
                    == (RenewalActionView::WriteFile { path: key_path, content: s.key_pem }))
            &&& (forall|j: int|
                0 <= j < domains.len() ==> actions.contains(
                    RenewalActionView::ClearTxt(#[trigger] domains[j]),
                ))
        }),
{
    let start = renewal_start_spec(domains, crt_path, key_path);
    lemma_run_invariant(start, events);
    let actions = run(start, events).1;
    assert(actions.contains(actions[1]));
}

/// The challenge that is chosen is the first DNS challenge, at whatever position it stands,
/// and none is chosen only where there is none.
pub proof fn first_dns_challenge_is_chosen(challenges: Seq<ChallengeView>)
    ensures
        dns_challenge(challenges) is None <==> forall|i: int|
            0 <= i < challenges.len() ==> (#[trigger] challenges[i]).kind != ChallengeKind::Dns01,
        dns_challenge(challenges) matches Some(c) ==> c.kind == ChallengeKind::Dns01 && exists|
            i: int,
        |
            0 <= i < challenges.len() && #[trigger] challenges[i] == c && forall|j: int|
                0 <= j < i ==> (#[trigger] challenges[j]).kind != ChallengeKind::Dns01,
    decreases challenges.len(),
{
    if challenges.len() > 0 && challenges[0].kind != ChallengeKind::Dns01 {
        let rest = challenges.skip(1);
        first_dns_challenge_is_chosen(rest);
        assert forall|i: int| 0 < i < challenges.len() implies #[trigger] challenges[i] == rest[i
            - 1] by {}
        assert forall|i: int| 0 <= i < rest.len() implies #[trigger] rest[i] == challenges[i
            + 1] by {}
        if dns_challenge(rest) is Some {
            let c = dns_challenge(rest)->0;
            let i = choose|i: int|
                0 <= i < rest.len() && #[trigger] rest[i] == c && forall|j: int|
                    0 <= j < i ==> (#[trigger] rest[j]).kind != ChallengeKind::Dns01;
            assert(challenges[i + 1] == c);
            assert forall|j: int| 0 <= j < i + 1 implies (#[trigger] challenges[j]).kind
                != ChallengeKind::Dns01 by {
                if j > 0 {
                    assert(rest[j - 1].kind != ChallengeKind::Dns01);
                }
            }
        }
    }
}

/// What each stage of a renewal leads to: which action is called for, and with what.
pub proof fn renewals_go_stage_by_stage(
    s: RenewalView,
    i: usize,
    der: Seq<u8>,
    key_pem: Seq<char>,
    chain: Seq<char>,
    elapsed: u128,
)
    ensures
        renewal_step_spec(s.at(RenewalStage::OpeningAccount), RenewalEventView::AccountOpened) == (
            s.at(RenewalStage::PlacingOrder),
            RenewalActionView::PlaceOrder(s.domains),
        ),
        renewal_step_spec(s.at(RenewalStage::PlacingOrder), RenewalEventView::Ordered) == (
            s.at(RenewalStage::Authorizing),
            RenewalActionView::FetchAuthorizations,
        ),
        renewal_step_spec(s.at(RenewalStage::SettingTxt(i)), RenewalEventView::TxtSet) == (
            s.at(RenewalStage::Propagating(i)),
            RenewalActionView::Wait(30),
        ),
        renewal_step_spec(s.at(RenewalStage::OrderPause), RenewalEventView::Waited) == (
            s.at(RenewalStage::OrderPoll),
            RenewalActionView::PollOrder,
        ),
        renewal_step_spec(
            s.at(RenewalStage::MakingRequest),
            RenewalEventView::RequestMade { der, key_pem },
        ) == (
            RenewalView { key_pem, stage: RenewalStage::Finalizing, ..s },
            RenewalActionView::Finalize(der),
        ),
        renewal_step_spec(s.at(RenewalStage::Finalizing), RenewalEventView::Finalized) == (
            s.at(RenewalStage::CertificatePause),
            RenewalActionView::Wait(5),
        ),
        renewal_step_spec(s.at(RenewalStage::CertificatePause), RenewalEventView::Waited) == (
            s.at(RenewalStage::CertificatePoll),
            RenewalActionView::PollCertificate,
        ),
        renewal_step_spec(
            s.at(RenewalStage::CertificatePoll),
            RenewalEventView::Certificate(Some(chain), elapsed),
        ) == (
            RenewalView { chain, stage: RenewalStage::PreparingCertificate, ..s },
            RenewalActionView::MakeDirectory(s.crt_path),
        ),
        renewal_step_spec(
            s.at(RenewalStage::PreparingCertificate),
            RenewalEventView::DirectoryMade,
        ) == (
            s.at(RenewalStage::PreparingKey),
            RenewalActionView::MakeDirectory(s.key_path),
        ),
        renewal_step_spec(s.at(RenewalStage::PreparingKey), RenewalEventView::DirectoryMade) == (
            s.at(RenewalStage::WritingCertificate),
            RenewalActionView::WriteFile { path: s.crt_path, content: s.chain },
        ),
        renewal_step_spec(s.at(RenewalStage::WritingCertificate), RenewalEventView::Written) == (
            s.at(RenewalStage::WritingKey),
            RenewalActionView::WriteFile { path: s.key_path, content: s.key_pem },
        ),
        s.at(RenewalStage::Done).domains == s.domains,
        s.at(RenewalStage::Done).authorizations == s.authorizations,
        s.at(RenewalStage::SettingTxt(i)).stage == RenewalStage::SettingTxt(i),
{
}

/// The DNS challenge of the authorization at a position, if it has one, is what is worked on
/// for it: its own domain gets the challenge's value, and its URL is announced. Without one
/// the renewal fails, and behind the last authorization the order is turned to.
pub proof fn authorizations_are_met_by_their_own_challenge(s: RenewalView, i: usize)
    ensures
        i >= s.authorizations.len() ==> challenge_from(s, i as int) == (
            s.at(RenewalStage::OrderPause),
            RenewalActionView::Wait(5),
        ),
        i < s.authorizations.len() ==> match dns_challenge(
            s.authorizations[i as int].challenges,
        ) {
            None => challenge_from(s, i as int) == (
                s.at(RenewalStage::Failed),
                RenewalActionView::Fail(RenewalError::NoDnsChallenge),
            ),
            Some(c) => challenge_from(s, i as int) == (
                s.at(RenewalStage::SettingTxt(i)),
                RenewalActionView::SetTxt {
                    domain: s.authorizations[i as int].domain,
                    value: c.dns_value,
                },
            ) && renewal_step_spec(
                s.at(RenewalStage::Propagating(i)),
                RenewalEventView::Waited,
            ) == (s.at(RenewalStage::Announcing(i)), RenewalActionView::Announce(c.url)),
        },
{
}

/// An order is polled until it is ready or invalid and a certificate until it is there, every
/// five seconds and as long as no more than five minutes went by.
pub proof fn polling_goes_on_for_five_minutes(s: RenewalView, status: OrderStatus, elapsed: u128)
    ensures
        renewal_step_spec(
            s.at(RenewalStage::OrderPoll),
            RenewalEventView::OrderState(status, elapsed),
        ) == if status == OrderStatus::Ready {
            (s.at(RenewalStage::MakingRequest), RenewalActionView::MakeRequest(s.domains))
        } else if status == OrderStatus::Invalid {
            (s.at(RenewalStage::Failed), RenewalActionView::Fail(RenewalError::OrderInvalid))
        } else if elapsed <= 300_000_000_000 {
            (s.at(RenewalStage::OrderPause), RenewalActionView::Wait(5))
        } else {
            (s.at(RenewalStage::Failed), RenewalActionView::Fail(RenewalError::OrderTimeout))
        },
        renewal_step_spec(
            s.at(RenewalStage::CertificatePoll),
            RenewalEventView::Certificate(None, elapsed),
        ) == if elapsed <= 300_000_000_000 {
            (s.at(RenewalStage::CertificatePause), RenewalActionView::Wait(5))
        } else {
            (s.at(RenewalStage::Failed), RenewalActionView::Fail(RenewalError::CertificateTimeout))
        },
{
}

/// What is said of challenges and authorizations is all that is in them, in its order.
pub proof fn authorizations_keep_everything(auths: Seq<Authorization>, i: int, k: int)
    requires
        0 <= i < auths.len(),
        0 <= k < auths[i].challenges@.len(),
    ensures
        authorization_views(auths).len() == auths.len(),
        authorization_views(auths)[i].domain == auths[i].domain@,
        authorization_views(auths)[i].challenges.len() == auths[i].challenges@.len(),
        authorization_views(auths)[i].challenges[k].kind == auths[i].challenges@[k].kind,
        authorization_views(auths)[i].challenges[k].url == auths[i].challenges@[k].url@,
        authorization_views(auths)[i].challenges[k].dns_value
            == auths[i].challenges@[k].dns_value@,
{
}

/// What is said of a renewal, its events and its actions is all that is in them.
pub proof fn renewals_keep_everything(
    r: Renewal,
    found: Vec<Authorization>,
    made: SigningRequest,
    chain: String,
    text: String,
    names: Vec<String>,
    elapsed: u128,
    i: int,
)
    ensures
        r@.domains.len() == r.domains@.len(),
        0 <= i < r.domains@.len() ==> r@.domains[i] == r.domains@[i]@,
        r@.crt_path == r.crt_path@,
        r@.key_path == r.key_path@,
        r@.authorizations == authorization_views(r.authorizations@),
        r@.key_pem == r.key_pem@,
        r@.chain == r.chain@,
        r@.stage == r.stage,
        RenewalEvent::Authorized(found)@ == RenewalEventView::Authorized(
            authorization_views(found@),
        ),
        RenewalEvent::RequestMade(made)@ == (RenewalEventView::RequestMade {
            der: made.der@,
            key_pem: made.key_pem@,
        }),
        RenewalEvent::Certificate(Some(chain), elapsed)@ == RenewalEventView::Certificate(
            Some(chain@),
            elapsed,
        ),
        RenewalEvent::Certificate(None, elapsed)@ == RenewalEventView::Certificate(None, elapsed),
        RenewalAction::PlaceOrder(names)@ == RenewalActionView::PlaceOrder(
            names@.map_values(|n: String| n@),
        ),
        RenewalAction::MakeRequest(names)@ == RenewalActionView::MakeRequest(
            names@.map_values(|n: String| n@),
        ),
        (RenewalAction::SetTxt { domain: chain, value: text })@ == (RenewalActionView::SetTxt {
            domain: chain@,
            value: text@,
        }),
        RenewalAction::Announce(text)@ == RenewalActionView::Announce(text@),
        RenewalAction::MakeDirectory(text)@ == RenewalActionView::MakeDirectory(text@),
        (RenewalAction::WriteFile { path: text, content: chain })@ == (
        RenewalActionView::WriteFile { path: text@, content: chain@ }),
        RenewalAction::ClearTxt(text)@ == RenewalActionView::ClearTxt(text@),
        RenewalAction::Finalize(made.der)@ == RenewalActionView::Finalize(made.der@),
{
}

/// A renewal starts with what it was given and nothing else, and every stage goes on with
/// whatever comes of its own action.
pub proof fn every_outcome_leads_on(
    domains: Seq<Seq<char>>,
    crt_path: Seq<char>,
    key_path: Seq<char>,
    found: Seq<AuthorizationView>,
    status: OrderStatus,
    elapsed: u128,
    chain: Option<Seq<char>>,
    der: Seq<u8>,
    key_pem: Seq<char>,
    i: usize,
    ok: bool,
)
    ensures
        renewal_start_spec(domains, crt_path, key_path).domains == domains,
        renewal_start_spec(domains, crt_path, key_path).crt_path == crt_path,
        renewal_start_spec(domains, crt_path, key_path).key_path == key_path,
        renewal_start_spec(domains, crt_path, key_path).stage == RenewalStage::OpeningAccount,
        renewal_start_spec(domains, crt_path, key_path).wf(),
        renewal_expects(RenewalStage::OpeningAccount, RenewalEventView::AccountOpened),
        renewal_expects(RenewalStage::PlacingOrder, RenewalEventView::Ordered),
        renewal_expects(RenewalStage::Authorizing, RenewalEventView::Authorized(found)),
        renewal_expects(RenewalStage::SettingTxt(i), RenewalEventView::TxtSet),
        renewal_expects(RenewalStage::Propagating(i), RenewalEventView::Waited),
        renewal_expects(RenewalStage::Announcing(i), RenewalEventView::Announced),
        renewal_expects(RenewalStage::OrderPause, RenewalEventView::Waited),
        renewal_expects(RenewalStage::OrderPoll, RenewalEventView::OrderState(status, elapsed)),
        renewal_expects(RenewalStage::MakingRequest, RenewalEventView::RequestMade { der, key_pem }),
        renewal_expects(RenewalStage::Finalizing, RenewalEventView::Finalized),
        renewal_expects(RenewalStage::CertificatePause, RenewalEventView::Waited),
        renewal_expects(
            RenewalStage::CertificatePoll,
            RenewalEventView::Certificate(chain, elapsed),
        ),
        renewal_expects(RenewalStage::PreparingCertificate, RenewalEventView::DirectoryMade),
        renewal_expects(RenewalStage::PreparingKey, RenewalEventView::DirectoryMade),
        renewal_expects(RenewalStage::WritingCertificate, RenewalEventView::Written),
        renewal_expects(RenewalStage::WritingKey, RenewalEventView::Written),
        renewal_expects(RenewalStage::CleaningUp(i), RenewalEventView::CleanedUp(ok)),
{
}

} // verus!
