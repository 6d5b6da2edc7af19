//! The explorer's view model: which screen is shown, the inscriptions, the
//! chat with the local assistant, the wallet figures and the kernel link,
//! and how each UI message changes them.
//!
//! The model is generic over the bitmap type `B` of a rendered inscription
//! and the payload `N` of a node-status report, which it carries but never
//! reads.
use crate::quote::TransactionQuote;
use vstd::prelude::*;

verus! {

/// Connection state of the app.
#[derive(Debug, Clone, Copy, PartialEq, Eq, Structural)]
pub enum AppState {
    Initializing,
    Connected,
    Offline,
}

/// The screen shown in the main content area.
#[derive(Debug, Clone, Copy, PartialEq, Eq, Structural)]
pub enum Screen {
    /// Inscription gallery (art first).
    Gallery,
    /// Detail view of one inscription.
    Inscription(usize),
    /// The assistant chat.
    Chat,
    /// Wallet and transactions.
    Wallet,
    /// Full-node status.
    NodeStatus,
    /// Farming cycle tracker.
    Farming,
}

/// Who wrote a chat message.
#[derive(Debug, Clone, Copy, PartialEq, Eq, Structural)]
pub enum MessageSender {
    Bloverai,
    Human,
    System,
}

/// One line of the chat.
#[derive(Debug, Clone)]
pub struct ChatMessage {
    pub sender: MessageSender,
    pub text: String,
    pub timestamp: u64,
}

/// Balances shown on the wallet screen, in raw units.
#[derive(Debug, Clone, Copy, PartialEq, Eq, Structural)]
pub struct WalletState {
    pub bnri_balance: u64,
    pub btc_balance: u64,
    /// Kernel accounting (earned metabolic energy).
    pub b_balance: u64,
    pub bnr_balance: u64,
    pub locked_bnri: u64,
    pub pending_rewards: u64,
}

/// The link to the kernel.
#[derive(Debug, Clone, Copy, PartialEq, Eq, Structural)]
pub struct KernelHandle {
    pub connected: bool,
}

/// A gallery card of one inscription, with its cached bitmap once rendered.
#[derive(Debug, Clone)]
pub struct InscriptionPreview<B> {
    pub id: String,
    pub name: String,
    pub level: u8,
    pub level_name: String,
    pub hd_type: Option<String>,
    pub aura_color: String,
    pub locked: bool,
    pub sealed_tokens: Option<u64>,
    pub network: String,
    pub is_eternal: bool,
    pub bitmap: Option<B>,
}

/// What the UI asks of the model.
#[derive(Debug, Clone)]
pub enum Message<B, N> {
    SwitchView(Screen),
    SelectInscription(usize),
    RefreshInscriptions,
    InscriptionsLoaded(Vec<InscriptionPreview<B>>),
    ChatInputChanged(String),
    SendMessage,
    MessageReceived(ChatMessage),
    RefreshWallet,
    WalletUpdated(WalletState),
    SimulateTransaction(String),
    TransactionQuote(TransactionQuote),
    ConfirmTransaction,
    CancelTransaction,
    RefreshNodeStatus,
    NodeStatusUpdated(N),
    KernelConnected,
    KernelDisconnected,
    BitmapReady(usize, B),
    ToggleTheme,
}

/// A chat message as a value: sender, text, timestamp.
pub open spec fn chat_entry(m: ChatMessage) -> (MessageSender, Seq<char>, u64) {
    (m.sender, m.text@, m.timestamp)
}

/// The assistant's greeting that opens every chat.
pub open spec fn greeting() -> Seq<char> {
    "Hello. I'm bLOVErAi. I'm here with you, locally. Nothing leaves this machine."@
}

/// The label shown before a chat message of this sender.
pub open spec fn sender_label(s: MessageSender) -> Seq<char> {
    match s {
        MessageSender::Bloverai => "bLOVErAi"@,
        MessageSender::Human => "You"@,
        MessageSender::System => "System"@,
    }
}

impl ChatMessage {
    /// The line shown in the chat: `<sender>: <text>`.
    pub fn chat_line(&self) -> (line: String)
        ensures
            line@ == sender_label(self.sender) + ": "@ + self.text@,
    {
        let line = match self.sender {
            MessageSender::Bloverai => String::from_str("bLOVErAi"),
            MessageSender::Human => String::from_str("You"),
            MessageSender::System => String::from_str("System"),
        };
        let line = line.concat(": ");
        line.concat(self.text.as_str())
    }
}

/// The whole state of the explorer apart from the toolkit's own.
pub struct ExplorerModel<B> {
    pub state: AppState,
    pub kernel: KernelHandle,
    pub current_view: Screen,
    pub inscriptions: Vec<InscriptionPreview<B>>,
    pub chat_messages: Vec<ChatMessage>,
    pub chat_input: String,
    pub wallet_state: WalletState,
}

/// The state after a kernel event.
pub open spec fn next_state<B, N>(s: AppState, msg: Message<B, N>) -> AppState {
    match msg {
        Message::KernelConnected => AppState::Connected,
        Message::KernelDisconnected => AppState::Offline,
        _ => s,
    }
}

pub open spec fn next_connected<B, N>(c: bool, msg: Message<B, N>) -> bool {
    match msg {
        Message::KernelConnected => true,
        Message::KernelDisconnected => false,
        _ => c,
    }
}

pub open spec fn next_screen<B, N>(v: Screen, msg: Message<B, N>) -> Screen {
    match msg {
        Message::SwitchView(to) => to,
        Message::SelectInscription(idx) => Screen::Inscription(idx),
        _ => v,
    }
}

pub open spec fn next_wallet<B, N>(w: WalletState, msg: Message<B, N>) -> WalletState {
    match msg {
        Message::WalletUpdated(nw) => nw,
        _ => w,
    }
}

pub open spec fn next_inscriptions<B, N>(
    ins: Seq<InscriptionPreview<B>>,
    msg: Message<B, N>,
) -> Seq<InscriptionPreview<B>> {
    match msg {
        Message::InscriptionsLoaded(loaded) => loaded@,
        Message::BitmapReady(idx, bitmap) => if idx < ins.len() {
            ins.update(idx as int, InscriptionPreview { bitmap: Some(bitmap), ..ins[idx as int] })
        } else {
            ins
        },
        _ => ins,
    }
}

/// The chat after a message: a sent input becomes a message of the human,
/// stamped `now`; a received message is appended; nothing else changes it.
pub open spec fn next_chat<B, N>(
    log: Seq<(MessageSender, Seq<char>, u64)>,
    input: Seq<char>,
    msg: Message<B, N>,
    now: u64,
) -> Seq<(MessageSender, Seq<char>, u64)> {
    match msg {
        Message::SendMessage => if input.len() > 0 {
            log.push((MessageSender::Human, input, now))
        } else {
            log
        },
        Message::MessageReceived(m) => log.push(chat_entry(m)),
        _ => log,
    }
}

pub open spec fn next_input<B, N>(input: Seq<char>, msg: Message<B, N>) -> Seq<char> {
    match msg {
        Message::ChatInputChanged(text) => text@,
        Message::SendMessage => seq![],
        _ => input,
    }
}

impl<B> ExplorerModel<B> {
    /// The chat as values, oldest first.
    pub open spec fn chat_log(&self) -> Seq<(MessageSender, Seq<char>, u64)> {
        self.chat_messages@.map_values(|m: ChatMessage| chat_entry(m))
    }

    /// The kernel link is up exactly in the connected state.
    pub open spec fn wf(&self) -> bool {
        self.kernel.connected <==> self.state == AppState::Connected
    }

    /// `next` is this model after `msg`, handled at time `now`.
    pub open spec fn steps_to<N>(&self, msg: Message<B, N>, now: u64, next: Self) -> bool {
        &&& next.state == next_state(self.state, msg)
        &&& next.kernel.connected == next_connected(self.kernel.connected, msg)
        &&& next.current_view == next_screen(self.current_view, msg)
        &&& next.wallet_state == next_wallet(self.wallet_state, msg)
        &&& next.inscriptions@ == next_inscriptions(self.inscriptions@, msg)
        &&& next.chat_log() == next_chat(self.chat_log(), self.chat_input@, msg, now)
        &&& next.chat_input@ == next_input(self.chat_input@, msg)
    }

    /// The model at start: not yet connected, on the gallery, no
    /// inscriptions, the assistant's greeting in the chat, zero balances.
    pub fn new() -> (m: Self)
        ensures
            m.state == AppState::Initializing,
            !m.kernel.connected,
            m.current_view == Screen::Gallery,
            m.inscriptions@.len() == 0,
            m.chat_log() == seq![(MessageSender::Bloverai, greeting(), 0u64)],
            m.chat_input@.len() == 0,
            m.wallet_state == (WalletState {
                bnri_balance: 0,
                btc_balance: 0,
                b_balance: 0,
                bnr_balance: 0,
                locked_bnri: 0,
                pending_rewards: 0,
            }),
            m.wf(),
    {
        let mut chat_messages: Vec<ChatMessage> = Vec::new();
        chat_messages.push(
            ChatMessage {
                sender: MessageSender::Bloverai,
                text: String::from_str(
                    "Hello. I'm bLOVErAi. I'm here with you, locally. Nothing leaves this machine.",
                ),
                timestamp: 0,
            },
        );
        let m = ExplorerModel {
            state: AppState::Initializing,
            kernel: KernelHandle { connected: false },
            current_view: Screen::Gallery,
            inscriptions: Vec::new(),
            chat_messages,
            chat_input: String::new(),
            wallet_state: WalletState {
                bnri_balance: 0,
                btc_balance: 0,
                b_balance: 0,
                bnr_balance: 0,
                locked_bnri: 0,
                pending_rewards: 0,
            },
        };
        assert(m.chat_log() =~= seq![(MessageSender::Bloverai, greeting(), 0u64)]);
        m
    }

    /// Handle one UI message at time `now` (seconds since the Unix epoch).
    pub fn update_at<N>(&mut self, message: Message<B, N>, now: u64)
        ensures
            old(self).steps_to(message, now, *final(self)),
            old(self).wf() ==> final(self).wf(),
    {
        let ghost log0 = self.chat_log();
        match message {
            Message::SwitchView(view) => {
                self.current_view = view;
            },
            Message::SelectInscription(idx) => {
                self.current_view = Screen::Inscription(idx);
            },
            Message::InscriptionsLoaded(inscriptions) => {
                self.inscriptions = inscriptions;
            },
            Message::ChatInputChanged(text) => {
                self.chat_input = text;
            },
            Message::SendMessage => {
                if !self.chat_input.as_str().is_empty() {
                    let msg = ChatMessage {
                        sender: MessageSender::Human,
                        text: self.chat_input.clone(),
                        timestamp: now,
                    };
                    self.chat_messages.push(msg);
                    self.chat_input = String::new();
                    assert(self.chat_log() =~= log0.push((MessageSender::Human, old(self).chat_input@, now)));
                } else {
                    assert(self.chat_input@ =~= seq![]);
                }
            },
            Message::MessageReceived(msg) => {
                self.chat_messages.push(msg);
                assert(self.chat_log() =~= log0.push(chat_entry(msg)));
            },
            Message::WalletUpdated(state) => {
                self.wallet_state = state;
            },
            Message::KernelConnected => {
                self.state = AppState::Connected;
                self.kernel.connected = true;
            },
            Message::KernelDisconnected => {
                self.state = AppState::Offline;
                self.kernel.connected = false;
            },
            Message::BitmapReady(idx, bitmap) => {
                if idx < self.inscriptions.len() {
                    let mut item = self.inscriptions.remove(idx);
                    item.bitmap = Some(bitmap);
                    self.inscriptions.insert(idx, item);
                    assert(self.inscriptions@ =~= old(self).inscriptions@.update(
                        idx as int,
                        InscriptionPreview { bitmap: Some(bitmap), ..old(self).inscriptions@[idx as int] },
                    ));
                }
            },
            Message::RefreshInscriptions => {},
            Message::RefreshWallet => {},
            Message::SimulateTransaction(_action) => {},
            Message::TransactionQuote(_quote) => {},
            Message::ConfirmTransaction => {},
            Message::CancelTransaction => {},
            Message::RefreshNodeStatus => {},
            Message::NodeStatusUpdated(_status) => {},
            Message::ToggleTheme => {},
        }
    }

    /// Handle one UI message, stamping a sent chat message with the wall
    /// clock, which is read only when there is input to send. Whatever time
    /// the clock gives, the model steps as `update_at` does at some time.
    pub fn update<N>(&mut self, message: Message<B, N>)
        ensures
            exists|now: u64| old(self).steps_to(message, now, *final(self)),
            old(self).wf() ==> final(self).wf(),
    {
        let now: u64 = if matches!(message, Message::SendMessage) && !self.chat_input.as_str().is_empty() {
            unix_timestamp_now() as u64
        } else {
            0
        };
        let ghost m = message;
        self.update_at(message, now);
        assert(old(self).steps_to(m, now, *self));
    }
}

/// Calls `chrono::Utc::now()` and returns its `timestamp()`, the seconds
/// since the Unix epoch. It reads the wall clock, so nothing is stated of
/// the value; `Utc::now` panics if the system clock reads before the epoch.
#[verifier::external_body]
fn unix_timestamp_now() -> i64 {
    chrono::Utc::now().timestamp()
}

/// The chat is append-only: a message adds at most one line at the end
/// and never changes or removes an earlier one.
pub proof fn chat_only_grows<B, N>(
    log: Seq<(MessageSender, Seq<char>, u64)>,
    input: Seq<char>,
    msg: Message<B, N>,
    now: u64,
)
    ensures
        log.is_prefix_of(next_chat(log, input, msg, now)),
        next_chat(log, input, msg, now).len() <= log.len() + 1,
{
    let next = next_chat(log, input, msg, now);
    assert(next.subrange(0, log.len() as int) =~= log);
}

/// Only a sent chat message depends on the time it is handled at.
pub proof fn time_only_stamps_sent_messages<B, N>(
    log: Seq<(MessageSender, Seq<char>, u64)>,
    input: Seq<char>,
    msg: Message<B, N>,
    t1: u64,
    t2: u64,
)
    requires
        !(msg is SendMessage),
    ensures
        next_chat(log, input, msg, t1) == next_chat(log, input, msg, t2),
{
}


/// `a` and `b` show the same kernel link, screen and wallet.
pub open spec fn same_status<B>(a: ExplorerModel<B>, b: ExplorerModel<B>) -> bool {
    &&& a.state == b.state
    &&& a.kernel == b.kernel
    &&& a.current_view == b.current_view
    &&& a.wallet_state == b.wallet_state
}

/// Loading the gallery replaces it with exactly the loaded list, whatever it
/// held before, and touches nothing else.
pub proof fn loading_replaces_gallery<B, N>(
    m: ExplorerModel<B>,
    loaded: Vec<InscriptionPreview<B>>,
    now: u64,
    next: ExplorerModel<B>,
)
    requires
        m.steps_to(Message::<B, N>::InscriptionsLoaded(loaded), now, next),
    ensures
        next.inscriptions@ == loaded@,
        next.chat_log() == m.chat_log(),
        next.chat_input@ == m.chat_input@,
        same_status(m, next),
{
}

/// A rendered bitmap lands on the card at its index and nowhere else; the
/// card keeps everything but its bitmap, and an index past the gallery
/// changes nothing.
pub proof fn bitmap_lands_on_its_card<B, N>(
    m: ExplorerModel<B>,
    idx: usize,
    bitmap: B,
    now: u64,
    next: ExplorerModel<B>,
)
    requires
        m.steps_to(Message::<B, N>::BitmapReady(idx, bitmap), now, next),
    ensures
        next.inscriptions@.len() == m.inscriptions@.len(),
        idx < m.inscriptions@.len() ==> {
            let (old_card, card) = (m.inscriptions@[idx as int], next.inscriptions@[idx as int]);
            &&& card.bitmap == Some(bitmap)
            &&& card.id == old_card.id
            &&& card.name == old_card.name
            &&& card.level == old_card.level
            &&& card.level_name == old_card.level_name
            &&& card.hd_type == old_card.hd_type
            &&& card.aura_color == old_card.aura_color
            &&& card.locked == old_card.locked
            &&& card.sealed_tokens == old_card.sealed_tokens
            &&& card.network == old_card.network
            &&& card.is_eternal == old_card.is_eternal
        },
        forall|j: int|
            0 <= j < m.inscriptions@.len() && j != idx ==> #[trigger] next.inscriptions@[j]
                == m.inscriptions@[j],
        idx >= m.inscriptions@.len() ==> next.inscriptions@ == m.inscriptions@,
        next.chat_log() == m.chat_log(),
        next.chat_input@ == m.chat_input@,
        same_status(m, next),
{
}

/// The text field reports its whole new value: the input becomes exactly
/// that text, whatever it held before.
pub proof fn typing_sets_the_input<B, N>(
    m: ExplorerModel<B>,
    text: String,
    now: u64,
    next: ExplorerModel<B>,
)
    requires
        m.steps_to(Message::<B, N>::ChatInputChanged(text), now, next),
    ensures
        next.chat_input@ == text@,
        next.chat_log() == m.chat_log(),
        next.inscriptions@ == m.inscriptions@,
        same_status(m, next),
{
}

/// Sending a non-empty input adds exactly one message at the end of the
/// chat: the human's, holding the input, stamped with the time; the input
/// is then empty. Sending an empty input leaves the chat as it was.
pub proof fn sending_posts_the_input<B, N>(m: ExplorerModel<B>, now: u64, next: ExplorerModel<B>)
    requires
        m.steps_to(Message::<B, N>::SendMessage, now, next),
    ensures
        m.chat_input@.len() > 0 ==> {
            &&& next.chat_log().len() == m.chat_log().len() + 1
            &&& forall|k: int|
                0 <= k < m.chat_log().len() ==> #[trigger] next.chat_log()[k] == m.chat_log()[k]
            &&& next.chat_log()[m.chat_log().len() as int] == (
                MessageSender::Human,
                m.chat_input@,
                now,
            )
        },
        m.chat_input@.len() == 0 ==> next.chat_log() == m.chat_log(),
        next.chat_input@.len() == 0,
        next.inscriptions@ == m.inscriptions@,
        same_status(m, next),
{
}

/// A received message is added at the end of the chat as it came.
pub proof fn receiving_appends_the_message<B, N>(
    m: ExplorerModel<B>,
    msg: ChatMessage,
    now: u64,
    next: ExplorerModel<B>,
)
    requires
        m.steps_to(Message::<B, N>::MessageReceived(msg), now, next),
    ensures
        next.chat_log().len() == m.chat_log().len() + 1,
        forall|k: int|
            0 <= k < m.chat_log().len() ==> #[trigger] next.chat_log()[k] == m.chat_log()[k],
        next.chat_log()[m.chat_log().len() as int] == (msg.sender, msg.text@, msg.timestamp),
        next.chat_input@ == m.chat_input@,
        next.inscriptions@ == m.inscriptions@,
        same_status(m, next),
{
}

/// Kernel events set the state and the link together; nothing else moves.
pub proof fn kernel_events_set_the_link<B, N>(
    m: ExplorerModel<B>,
    msg: Message<B, N>,
    now: u64,
    next: ExplorerModel<B>,
)
    requires
        m.steps_to(msg, now, next),
        msg is KernelConnected || msg is KernelDisconnected,
    ensures
        msg is KernelConnected ==> next.state == AppState::Connected && next.kernel.connected,
        msg is KernelDisconnected ==> next.state == AppState::Offline && !next.kernel.connected,
        next.current_view == m.current_view,
        next.wallet_state == m.wallet_state,
        next.chat_log() == m.chat_log(),
        next.chat_input@ == m.chat_input@,
        next.inscriptions@ == m.inscriptions@,
{
}

/// Navigation shows the chosen screen; selecting an inscription shows its
/// detail view. A wallet update shows exactly the new balances.
pub proof fn navigation_and_wallet_updates<B, N>(
    m: ExplorerModel<B>,
    msg: Message<B, N>,
    now: u64,
    next: ExplorerModel<B>,
)
    requires
        m.steps_to(msg, now, next),
    ensures
        msg matches Message::SwitchView(s) ==> next.current_view == s,
        msg matches Message::SelectInscription(i) ==> next.current_view == Screen::Inscription(i),
        msg matches Message::WalletUpdated(w) ==> next.wallet_state == w && next.current_view
            == m.current_view,
        (msg is SwitchView || msg is SelectInscription) ==> next.wallet_state == m.wallet_state,
        (msg is SwitchView || msg is SelectInscription || msg is WalletUpdated) ==> {
            &&& next.state == m.state
            &&& next.kernel == m.kernel
            &&& next.chat_log() == m.chat_log()
            &&& next.chat_input@ == m.chat_input@
            &&& next.inscriptions@ == m.inscriptions@
        },
{
}

/// Requests that start outside work (refreshes, simulations, quotes,
/// confirmations, node reports, theme) leave the model as it was.
pub proof fn requests_leave_the_model<B, N>(
    m: ExplorerModel<B>,
    msg: Message<B, N>,
    now: u64,
    next: ExplorerModel<B>,
)
    requires
        m.steps_to(msg, now, next),
        msg is RefreshInscriptions || msg is RefreshWallet || msg is SimulateTransaction
            || msg is TransactionQuote || msg is ConfirmTransaction || msg is CancelTransaction
            || msg is RefreshNodeStatus || msg is NodeStatusUpdated || msg is ToggleTheme,
    ensures
        same_status(m, next),
        next.chat_log() == m.chat_log(),
        next.chat_input@ == m.chat_input@,
        next.inscriptions@ == m.inscriptions@,
{
}

} // verus!
