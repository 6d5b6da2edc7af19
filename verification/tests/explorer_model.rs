// Explorer view model: start state and how UI messages change it.

use bnri_cosmic::explorer::{
    AppState, ChatMessage, ExplorerModel, InscriptionPreview, Message, MessageSender, Screen,
    WalletState,
};

type Msg = Message<u32, ()>;

fn preview(id: &str) -> InscriptionPreview<u32> {
    InscriptionPreview {
        id: id.to_string(),
        name: format!("bee {}", id),
        level: 1,
        level_name: "Larva".to_string(),
        hd_type: None,
        aura_color: "#FFD700".to_string(),
        locked: false,
        sealed_tokens: None,
        network: "exsat".to_string(),
        is_eternal: false,
        bitmap: None,
    }
}

#[test]
fn new_model_greets_and_waits_on_gallery() {
    let m: ExplorerModel<u32> = ExplorerModel::new();
    assert_eq!(m.state, AppState::Initializing);
    assert!(!m.kernel.connected);
    assert_eq!(m.current_view, Screen::Gallery);
    assert!(m.inscriptions.is_empty());
    assert_eq!(m.chat_messages.len(), 1);
    assert_eq!(m.chat_messages[0].sender, MessageSender::Bloverai);
    assert_eq!(
        m.chat_messages[0].text,
        "Hello. I'm bLOVErAi. I'm here with you, locally. Nothing leaves this machine."
    );
    assert_eq!(m.chat_messages[0].timestamp, 0);
    assert!(m.chat_input.is_empty());
    assert_eq!(m.wallet_state.b_balance, 0);
}

#[test]
fn sending_moves_input_into_chat_with_time() {
    let mut m: ExplorerModel<u32> = ExplorerModel::new();
    m.update_at(Msg::ChatInputChanged("gm".to_string()), 5);
    assert_eq!(m.chat_input, "gm");
    m.update_at(Msg::SendMessage, 1_700_000_000);
    assert_eq!(m.chat_messages.len(), 2);
    assert_eq!(m.chat_messages[1].sender, MessageSender::Human);
    assert_eq!(m.chat_messages[1].text, "gm");
    assert_eq!(m.chat_messages[1].timestamp, 1_700_000_000);
    assert!(m.chat_input.is_empty());
}

#[test]
fn sending_empty_input_adds_nothing() {
    let mut m: ExplorerModel<u32> = ExplorerModel::new();
    m.update_at(Msg::SendMessage, 9);
    assert_eq!(m.chat_messages.len(), 1);
}

#[test]
fn update_with_clock_stamps_a_recent_time() {
    let mut m: ExplorerModel<u32> = ExplorerModel::new();
    m.update(Msg::ChatInputChanged("hello".to_string()));
    m.update(Msg::SendMessage);
    assert_eq!(m.chat_messages.len(), 2);
    assert!(m.chat_messages[1].timestamp > 1_600_000_000);
}

#[test]
fn received_messages_are_appended() {
    let mut m: ExplorerModel<u32> = ExplorerModel::new();
    m.update_at(
        Msg::MessageReceived(ChatMessage {
            sender: MessageSender::System,
            text: "kernel up".to_string(),
            timestamp: 3,
        }),
        0,
    );
    assert_eq!(m.chat_messages.len(), 2);
    assert_eq!(m.chat_messages[1].chat_line(), "System: kernel up");
    assert_eq!(m.chat_messages[0].chat_line().split(": ").next(), Some("bLOVErAi"));
}

#[test]
fn kernel_link_follows_connection_events() {
    let mut m: ExplorerModel<u32> = ExplorerModel::new();
    m.update_at(Msg::KernelConnected, 0);
    assert_eq!(m.state, AppState::Connected);
    assert!(m.kernel.connected);
    m.update_at(Msg::KernelDisconnected, 0);
    assert_eq!(m.state, AppState::Offline);
    assert!(!m.kernel.connected);
}

#[test]
fn navigation_and_wallet() {
    let mut m: ExplorerModel<u32> = ExplorerModel::new();
    m.update_at(Msg::SwitchView(Screen::Wallet), 0);
    assert_eq!(m.current_view, Screen::Wallet);
    m.update_at(Msg::SelectInscription(4), 0);
    assert_eq!(m.current_view, Screen::Inscription(4));
    let w = WalletState {
        bnri_balance: 1,
        btc_balance: 2,
        b_balance: 3,
        bnr_balance: 4,
        locked_bnri: 5,
        pending_rewards: 6,
    };
    m.update_at(Msg::WalletUpdated(w), 0);
    assert_eq!(m.wallet_state, w);
    m.update_at(Msg::ToggleTheme, 0);
    assert_eq!(m.current_view, Screen::Inscription(4));
}

#[test]
fn bitmaps_land_on_their_inscription_only() {
    let mut m: ExplorerModel<u32> = ExplorerModel::new();
    m.update_at(Msg::InscriptionsLoaded(vec![preview("a"), preview("b")]), 0);
    m.update_at(Msg::BitmapReady(1, 77), 0);
    assert_eq!(m.inscriptions[0].bitmap, None);
    assert_eq!(m.inscriptions[1].bitmap, Some(77));
    assert_eq!(m.inscriptions[1].id, "b");
    m.update_at(Msg::BitmapReady(2, 88), 0);
    assert_eq!(m.inscriptions.len(), 2);
}
