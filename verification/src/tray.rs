//! The tray: its context menu, rebuilt on every click from the transmitters,
//! the viewers, their states and the live Spout senders; and the commands its
//! items send back to the app.

use vstd::prelude::*;
use crate::config::Viewer;
use crate::model::{source_label, Transmitter};
use crate::spout::SpoutSenders;
use crate::status::{state_in, state_of, Key, KeyView, StatusTable};
use crate::supervisor::state_symbol;
use crate::text::{decimal, lit, push_decimal, push_str, starts_with, str_eq, string_of, vec_starts_with};

verus! {

/// A command emitted by the tray, consumed by the app's main loop.
#[derive(Debug)]
pub enum TrayCommand {
    /// Create a transmitter pinned to a Spout sender.
    AddSpout { sender: String },
    /// Create a plain screen-capture transmitter.
    AddScreen,
    /// Restart the named transmitter.
    RestartTx { name: String },
    /// Remove (stop and forget) the named transmitter.
    RemoveTx { name: String },
    /// Start the viewer.
    StartViewer { id: String },
    /// Stop the viewer.
    StopViewer { id: String },
    /// Restart the viewer.
    RestartViewer { id: String },
    /// Remove (stop and forget) the viewer.
    RemoveViewer { id: String },
    /// Show the dashboard window.
    OpenDashboard,
    /// Quit the app.
    Quit,
}

/// A [`TrayCommand`] with its texts as character sequences.
pub enum CommandView {
    AddSpout(Seq<char>),
    AddScreen,
    RestartTx(Seq<char>),
    RemoveTx(Seq<char>),
    StartViewer(Seq<char>),
    StopViewer(Seq<char>),
    RestartViewer(Seq<char>),
    RemoveViewer(Seq<char>),
    OpenDashboard,
    Quit,
}

impl View for TrayCommand {
    type V = CommandView;

    open spec fn view(&self) -> CommandView {
        match self {
            TrayCommand::AddSpout { sender } => CommandView::AddSpout(sender@),
            TrayCommand::AddScreen => CommandView::AddScreen,
            TrayCommand::RestartTx { name } => CommandView::RestartTx(name@),
            TrayCommand::RemoveTx { name } => CommandView::RemoveTx(name@),
            TrayCommand::StartViewer { id } => CommandView::StartViewer(id@),
            TrayCommand::StopViewer { id } => CommandView::StopViewer(id@),
            TrayCommand::RestartViewer { id } => CommandView::RestartViewer(id@),
            TrayCommand::RemoveViewer { id } => CommandView::RemoveViewer(id@),
            TrayCommand::OpenDashboard => CommandView::OpenDashboard,
            TrayCommand::Quit => CommandView::Quit,
        }
    }
}

/// Separates a menu id's action from its argument: a control character no
/// transmitter name, viewer id or Spout sender contains in practice.
pub const SEP: char = '\u{1f}';

/// The id prefixes of the items that carry an argument.
pub open spec fn add_spout_prefix() -> Seq<char> { "add-spout\u{1f}"@ }
pub open spec fn tx_restart_prefix() -> Seq<char> { "tx-restart\u{1f}"@ }
pub open spec fn tx_remove_prefix() -> Seq<char> { "tx-remove\u{1f}"@ }
pub open spec fn vw_start_prefix() -> Seq<char> { "vw-start\u{1f}"@ }
pub open spec fn vw_stop_prefix() -> Seq<char> { "vw-stop\u{1f}"@ }
pub open spec fn vw_restart_prefix() -> Seq<char> { "vw-restart\u{1f}"@ }
pub open spec fn vw_remove_prefix() -> Seq<char> { "vw-remove\u{1f}"@ }

/// What follows prefix `p` in `s`.
pub open spec fn after(s: Seq<char>, p: Seq<char>) -> Seq<char> {
    s.subrange(p.len() as int, s.len() as int)
}

/// The command a menu id stands for: the argument items by their prefix, in
/// the order they are tried; `None` for anything else.
pub open spec fn parsed_command(id: Seq<char>) -> Option<CommandView> {
    if id == "quit"@ {
        Some(CommandView::Quit)
    } else if id == "add-screen"@ {
        Some(CommandView::AddScreen)
    } else if starts_with(id, add_spout_prefix()) {
        Some(CommandView::AddSpout(after(id, add_spout_prefix())))
    } else if starts_with(id, tx_restart_prefix()) {
        Some(CommandView::RestartTx(after(id, tx_restart_prefix())))
    } else if starts_with(id, tx_remove_prefix()) {
        Some(CommandView::RemoveTx(after(id, tx_remove_prefix())))
    } else if starts_with(id, vw_start_prefix()) {
        Some(CommandView::StartViewer(after(id, vw_start_prefix())))
    } else if starts_with(id, vw_stop_prefix()) {
        Some(CommandView::StopViewer(after(id, vw_stop_prefix())))
    } else if starts_with(id, vw_restart_prefix()) {
        Some(CommandView::RestartViewer(after(id, vw_restart_prefix())))
    } else if starts_with(id, vw_remove_prefix()) {
        Some(CommandView::RemoveViewer(after(id, vw_remove_prefix())))
    } else {
        None
    }
}

/// The view of an optional command.
pub open spec fn opt_command(c: Option<TrayCommand>) -> Option<CommandView> {
    match c {
        Some(c) => Some(c@),
        None => None,
    }
}

/// If `id` starts with `prefix`, the rest of it.
fn strip(id: &Vec<char>, prefix: &str) -> (r: Option<String>)
    ensures
        match r {
            Some(s) => starts_with(id@, prefix@) && s@ == after(id@, prefix@),
            None => !starts_with(id@, prefix@),
        },
{
    let p = lit(prefix);
    if vec_starts_with(id, &p) {
        Some(string_of(id, p.len(), id.len()))
    } else {
        None
    }
}

/// Parse a menu id into a [`TrayCommand`].
pub fn parse_command(id: &str) -> (r: Option<TrayCommand>)
    ensures
        opt_command(r) == parsed_command(id@),
{
    if str_eq(id, "quit") {
        return Some(TrayCommand::Quit);
    }
    if str_eq(id, "add-screen") {
        return Some(TrayCommand::AddScreen);
    }
    let v = crate::text::chars_of(id);
    if let Some(sender) = strip(&v, "add-spout\u{1f}") {
        return Some(TrayCommand::AddSpout { sender });
    }
    if let Some(name) = strip(&v, "tx-restart\u{1f}") {
        return Some(TrayCommand::RestartTx { name });
    }
    if let Some(name) = strip(&v, "tx-remove\u{1f}") {
        return Some(TrayCommand::RemoveTx { name });
    }
    if let Some(vid) = strip(&v, "vw-start\u{1f}") {
        return Some(TrayCommand::StartViewer { id: vid });
    }
    if let Some(vid) = strip(&v, "vw-stop\u{1f}") {
        return Some(TrayCommand::StopViewer { id: vid });
    }
    if let Some(vid) = strip(&v, "vw-restart\u{1f}") {
        return Some(TrayCommand::RestartViewer { id: vid });
    }
    if let Some(vid) = strip(&v, "vw-remove\u{1f}") {
        return Some(TrayCommand::RemoveViewer { id: vid });
    }
    None
}

/// The menu id of the item that sends command `c` (the dashboard has an item
/// of its own that the tray opens without the app).
pub open spec fn command_id(c: CommandView) -> Seq<char> {
    match c {
        CommandView::AddSpout(s) => add_spout_prefix() + s,
        CommandView::AddScreen => "add-screen"@,
        CommandView::RestartTx(n) => tx_restart_prefix() + n,
        CommandView::RemoveTx(n) => tx_remove_prefix() + n,
        CommandView::StartViewer(i) => vw_start_prefix() + i,
        CommandView::StopViewer(i) => vw_stop_prefix() + i,
        CommandView::RestartViewer(i) => vw_restart_prefix() + i,
        CommandView::RemoveViewer(i) => vw_remove_prefix() + i,
        CommandView::OpenDashboard => "open-dashboard"@,
        CommandView::Quit => "quit"@,
    }
}

/// `p + s` does not start with `q` when they differ at index `k` of both.
proof fn lemma_prefix_differs(p: Seq<char>, s: Seq<char>, q: Seq<char>, k: int)
    requires
        0 <= k < p.len(),
        k < q.len(),
        p[k] != q[k],
    ensures
        !starts_with(p + s, q),
{
    if starts_with(p + s, q) {
        assert((p + s).subrange(0, q.len() as int)[k] == q[k]);
    }
}

/// `p + s` starts with `p`, and what follows is `s`.
proof fn lemma_prefix_own(p: Seq<char>, s: Seq<char>)
    ensures
        starts_with(p + s, p),
        after(p + s, p) == s,
{
    assert((p + s).subrange(0, p.len() as int) =~= p);
    assert(after(p + s, p) =~= s);
}

/// Every command the tray's menu sends comes back from its item's id: the
/// id that names a command parses to that very command, whatever the name,
/// id or sender it carries.
pub proof fn lemma_menu_ids_parse_back(c: CommandView)
    requires
        !(c is OpenDashboard),
    ensures
        parsed_command(command_id(c)) == Some(c),
{
    reveal_strlit("quit");
    reveal_strlit("add-screen");
    reveal_strlit("add-spout\u{1f}");
    reveal_strlit("tx-restart\u{1f}");
    reveal_strlit("tx-remove\u{1f}");
    reveal_strlit("vw-start\u{1f}");
    reveal_strlit("vw-stop\u{1f}");
    reveal_strlit("vw-restart\u{1f}");
    reveal_strlit("vw-remove\u{1f}");
    let asp = add_spout_prefix();
    let trs = tx_restart_prefix();
    let trm = tx_remove_prefix();
    let vst = vw_start_prefix();
    let vsp = vw_stop_prefix();
    let vrs = vw_restart_prefix();
    let vrm = vw_remove_prefix();
    match c {
        CommandView::AddSpout(s) => {
            lemma_prefix_own(asp, s);
            assert((asp + s)[0] == 'a');
            assert((asp + s) != "quit"@) by {
                assert("quit"@[0] == 'q');
            }
            assert((asp + s) != "add-screen"@) by {
                assert((asp + s)[5] == 'p');
                assert("add-screen"@[5] == 'c');
            }
        },
        CommandView::AddScreen => {
            assert("add-screen"@ != "quit"@) by {
                assert("add-screen"@[0] != "quit"@[0]);
            }
        },
        CommandView::RestartTx(n) => {
            lemma_prefix_own(trs, n);
            assert((trs + n)[0] == 't');
            lemma_prefix_differs(trs, n, asp, 0);
        },
        CommandView::RemoveTx(n) => {
            lemma_prefix_own(trm, n);
            assert((trm + n)[0] == 't');
            lemma_prefix_differs(trm, n, asp, 0);
            lemma_prefix_differs(trm, n, trs, 5);
        },
        CommandView::StartViewer(i) => {
            lemma_prefix_own(vst, i);
            assert((vst + i)[0] == 'v');
            lemma_prefix_differs(vst, i, asp, 0);
            lemma_prefix_differs(vst, i, trs, 0);
            lemma_prefix_differs(vst, i, trm, 0);
        },
        CommandView::StopViewer(i) => {
            lemma_prefix_own(vsp, i);
            assert((vsp + i)[0] == 'v');
            lemma_prefix_differs(vsp, i, asp, 0);
            lemma_prefix_differs(vsp, i, trs, 0);
            lemma_prefix_differs(vsp, i, trm, 0);
            lemma_prefix_differs(vsp, i, vst, 5);
        },
        CommandView::RestartViewer(i) => {
            lemma_prefix_own(vrs, i);
            assert((vrs + i)[0] == 'v');
            lemma_prefix_differs(vrs, i, asp, 0);
            lemma_prefix_differs(vrs, i, trs, 0);
            lemma_prefix_differs(vrs, i, trm, 0);
            lemma_prefix_differs(vrs, i, vst, 3);
            lemma_prefix_differs(vrs, i, vsp, 3);
        },
        CommandView::RemoveViewer(i) => {
            lemma_prefix_own(vrm, i);
            assert((vrm + i)[0] == 'v');
            lemma_prefix_differs(vrm, i, asp, 0);
            lemma_prefix_differs(vrm, i, trs, 0);
            lemma_prefix_differs(vrm, i, trm, 0);
            lemma_prefix_differs(vrm, i, vst, 3);
            lemma_prefix_differs(vrm, i, vsp, 3);
            lemma_prefix_differs(vrm, i, vrs, 5);
        },
        CommandView::OpenDashboard => {},
        CommandView::Quit => {},
    }
}

/// What a tray command means for the shell's own loop: everything the app
/// applies by itself continues the loop; only the window and the exit are
/// the shell's.
#[derive(Clone, Copy, Debug, PartialEq, Eq, Structural)]
pub enum Flow {
    Continue,
    OpenDashboard,
    Quit,
}

/// The shell-level outcome of a command.
pub open spec fn flow_of_view(c: CommandView) -> Flow {
    match c {
        CommandView::OpenDashboard => Flow::OpenDashboard,
        CommandView::Quit => Flow::Quit,
        _ => Flow::Continue,
    }
}

/// The shell-level outcome of `command`.
pub fn flow_of(command: &TrayCommand) -> (r: Flow)
    ensures
        r == flow_of_view(command@),
{
    match command {
        TrayCommand::OpenDashboard => Flow::OpenDashboard,
        TrayCommand::Quit => Flow::Quit,
        _ => Flow::Continue,
    }
}

/// A menu item, or a separator line.
#[derive(Debug)]
pub enum MenuLeaf {
    Item { id: String, label: String, enabled: bool },
    Separator,
}

/// A [`MenuLeaf`] with its texts as character sequences.
pub enum LeafView {
    Item(Seq<char>, Seq<char>, bool),
    Separator,
}

impl View for MenuLeaf {
    type V = LeafView;

    open spec fn view(&self) -> LeafView {
        match self {
            MenuLeaf::Item { id, label, enabled } => LeafView::Item(id@, label@, *enabled),
            MenuLeaf::Separator => LeafView::Separator,
        }
    }
}

/// One entry of the top-level menu: a leaf, or a submenu of leaves.
#[derive(Debug)]
pub enum MenuEntry {
    Leaf(MenuLeaf),
    Submenu { label: String, enabled: bool, items: Vec<MenuLeaf> },
}

/// A [`MenuEntry`] with its texts as character sequences.
pub enum EntryView {
    Leaf(LeafView),
    Submenu(Seq<char>, bool, Seq<LeafView>),
}

/// The views of a sequence of leaves.
pub open spec fn leaves_view(s: Seq<MenuLeaf>) -> Seq<LeafView> {
    s.map_values(|l: MenuLeaf| l@)
}

impl View for MenuEntry {
    type V = EntryView;

    open spec fn view(&self) -> EntryView {
        match self {
            MenuEntry::Leaf(l) => EntryView::Leaf(l@),
            MenuEntry::Submenu { label, enabled, items } => EntryView::Submenu(label@, *enabled, leaves_view(items@)),
        }
    }
}

/// The views of a sequence of entries.
pub open spec fn entries_view(s: Seq<MenuEntry>) -> Seq<EntryView> {
    s.map_values(|e: MenuEntry| e@)
}

/// The tooltip, also the menu's disabled title.
pub open spec fn tooltip() -> Seq<char> {
    "KyberFrog \u{1f438}"@
}

/// A disabled informational line.
pub open spec fn note(text: Seq<char>) -> EntryView {
    EntryView::Leaf(LeafView::Item("noop"@, text, false))
}

/// The submenu of one transmitter: its state, name, port and source, with
/// restart and remove.
pub open spec fn tx_entry(t: Transmitter, status: Map<KeyView, crate::supervisor::State>) -> EntryView {
    EntryView::Submenu(
        state_symbol(state_in(status, KeyView::Tx(t.name@))) + " "@ + t.name@ + "  :"@ + decimal(t.port as nat)
            + "  \u{b7}  "@ + source_label(t.source),
        true,
        seq![
            LeafView::Item(tx_restart_prefix() + t.name@, "Red\u{e9}marrer"@, true),
            LeafView::Item(tx_remove_prefix() + t.name@, "Supprimer"@, true),
        ],
    )
}

/// The submenu of one viewer: its state, id and remote, with start, stop,
/// restart and remove.
pub open spec fn viewer_entry(v: Viewer, status: Map<KeyView, crate::supervisor::State>) -> EntryView {
    EntryView::Submenu(
        state_symbol(state_in(status, KeyView::Vw(v.id@))) + " "@ + v.id@ + "  \u{b7}  "@ + v.server@ + ":"@
            + decimal(v.port as nat),
        true,
        seq![
            LeafView::Item(vw_start_prefix() + v.id@, "Lancer"@, true),
            LeafView::Item(vw_stop_prefix() + v.id@, "Stop"@, true),
            LeafView::Item(vw_restart_prefix() + v.id@, "Red\u{e9}marrer"@, true),
            LeafView::Separator,
            LeafView::Item(vw_remove_prefix() + v.id@, "Supprimer"@, true),
        ],
    )
}

/// The item that adds a transmitter on Spout sender `s`, flagged when it is
/// the active one.
pub open spec fn sender_item(s: Seq<char>, active: Option<Seq<char>>) -> LeafView {
    LeafView::Item(
        add_spout_prefix() + s,
        if active == Some(s) { "Spout: "@ + s + "  (actif)"@ } else { "Spout: "@ + s },
        true,
    )
}

/// The "add a transmitter" submenu's items.
pub open spec fn add_items(senders: Seq<Seq<char>>, active: Option<Seq<char>>) -> Seq<LeafView> {
    (if senders.len() == 0 {
        seq![LeafView::Item("noop"@, "(aucun sender Spout d\u{e9}tect\u{e9})"@, false)]
    } else {
        Seq::new(senders.len(), |i: int| sender_item(senders[i], active))
    }) + seq![LeafView::Separator, LeafView::Item("add-screen"@, "Capture d'\u{e9}cran"@, true)]
}

/// The whole context menu.
pub open spec fn menu_spec(
    txs: Seq<Transmitter>,
    viewers: Seq<Viewer>,
    status: Map<KeyView, crate::supervisor::State>,
    senders: Seq<Seq<char>>,
    active: Option<Seq<char>>,
) -> Seq<EntryView> {
    seq![note(tooltip()), EntryView::Leaf(LeafView::Separator), note("\u{2014} \u{c9}mission \u{2014}"@)]
        + (if txs.len() == 0 {
            seq![note("(aucun transmetteur)"@)]
        } else {
            Seq::new(txs.len(), |i: int| tx_entry(txs[i], status))
        })
        + seq![
            EntryView::Submenu("Ajouter un transmetteur"@, true, add_items(senders, active)),
            EntryView::Leaf(LeafView::Separator),
            note("\u{2014} R\u{e9}ception \u{2014}"@),
        ]
        + (if viewers.len() == 0 {
            seq![note("(aucune r\u{e9}ception)"@)]
        } else {
            Seq::new(viewers.len(), |i: int| viewer_entry(viewers[i], status))
        })
        + seq![
            EntryView::Leaf(LeafView::Separator),
            EntryView::Leaf(LeafView::Item("open-dashboard"@, "Ouvrir dashboard"@, true)),
            EntryView::Leaf(LeafView::Item("open-config"@, "Ouvrir config"@, true)),
            EntryView::Leaf(LeafView::Item("open-logs"@, "Ouvrir logs"@, true)),
            EntryView::Leaf(LeafView::Separator),
            EntryView::Leaf(LeafView::Item("quit"@, "Quitter"@, true)),
        ]
}

fn item(id: &str, label: &str, enabled: bool) -> (r: MenuLeaf)
    ensures
        r@ == LeafView::Item(id@, label@, enabled),
{
    MenuLeaf::Item { id: String::from_str(id), label: String::from_str(label), enabled }
}

fn push_leaf(menu: &mut Vec<MenuEntry>, l: MenuLeaf)
    ensures
        entries_view(final(menu)@) == entries_view(old(menu)@).push(EntryView::Leaf(l@)),
{
    let ghost prev = menu@;
    menu.push(MenuEntry::Leaf(l));
    assert(entries_view(menu@) =~= entries_view(prev).push(EntryView::Leaf(l@)));
}

fn push_item(items: &mut Vec<MenuLeaf>, l: MenuLeaf)
    ensures
        leaves_view(final(items)@) == leaves_view(old(items)@).push(l@),
{
    let ghost prev = items@;
    items.push(l);
    assert(leaves_view(items@) =~= leaves_view(prev).push(l@));
}

/// A string of `prefix` followed by `rest`.
fn joined(prefix: &str, rest: &str) -> (r: String)
    ensures
        r@ == prefix@ + rest@,
{
    let mut s = String::new();
    push_str(&mut s, prefix);
    push_str(&mut s, rest);
    s
}

fn tx_menu_entry(t: &Transmitter, status: &StatusTable) -> (r: MenuEntry)
    ensures
        r@ == tx_entry(*t, status@),
{
    let key = Key::Tx(t.name.clone());
    let state = state_of(status, &key);
    let mut label = String::new();
    push_str(&mut label, state.symbol());
    push_str(&mut label, " ");
    push_str(&mut label, t.name.as_str());
    push_str(&mut label, "  :");
    push_decimal(&mut label, t.port as u64);
    push_str(&mut label, "  \u{b7}  ");
    let source = t.source.label();
    push_str(&mut label, source.as_str());
    let mut items: Vec<MenuLeaf> = Vec::new();
    push_item(&mut items, MenuLeaf::Item {
        id: joined("tx-restart\u{1f}", t.name.as_str()),
        label: String::from_str("Red\u{e9}marrer"),
        enabled: true,
    });
    push_item(&mut items, MenuLeaf::Item {
        id: joined("tx-remove\u{1f}", t.name.as_str()),
        label: String::from_str("Supprimer"),
        enabled: true,
    });
    proof {
        assert(label@ =~= tx_entry(*t, status@)->Submenu_0);
        assert(leaves_view(items@) =~= tx_entry(*t, status@)->Submenu_2);
    }
    MenuEntry::Submenu { label, enabled: true, items }
}

fn viewer_menu_entry(v: &Viewer, status: &StatusTable) -> (r: MenuEntry)
    ensures
        r@ == viewer_entry(*v, status@),
{
    let key = Key::Vw(v.id.clone());
    let state = state_of(status, &key);
    let mut label = String::new();
    push_str(&mut label, state.symbol());
    push_str(&mut label, " ");
    push_str(&mut label, v.id.as_str());
    push_str(&mut label, "  \u{b7}  ");
    push_str(&mut label, v.server.as_str());
    push_str(&mut label, ":");
    push_decimal(&mut label, v.port as u64);
    let mut items: Vec<MenuLeaf> = Vec::new();
    push_item(&mut items, MenuLeaf::Item {
        id: joined("vw-start\u{1f}", v.id.as_str()),
        label: String::from_str("Lancer"),
        enabled: true,
    });
    push_item(&mut items, MenuLeaf::Item {
        id: joined("vw-stop\u{1f}", v.id.as_str()),
        label: String::from_str("Stop"),
        enabled: true,
    });
    push_item(&mut items, MenuLeaf::Item {
        id: joined("vw-restart\u{1f}", v.id.as_str()),
        label: String::from_str("Red\u{e9}marrer"),
        enabled: true,
    });
    push_item(&mut items, MenuLeaf::Separator);
    push_item(&mut items, MenuLeaf::Item {
        id: joined("vw-remove\u{1f}", v.id.as_str()),
        label: String::from_str("Supprimer"),
        enabled: true,
    });
    proof {
        assert(label@ =~= viewer_entry(*v, status@)->Submenu_0);
        assert(leaves_view(items@) =~= viewer_entry(*v, status@)->Submenu_2);
    }
    MenuEntry::Submenu { label, enabled: true, items }
}

fn add_submenu(senders: &SpoutSenders) -> (r: MenuEntry)
    ensures
        r@ == EntryView::Submenu(
            "Ajouter un transmetteur"@,
            true,
            add_items(crate::text::strings_of(senders.names@), crate::ops::opt_string(senders.active)),
        ),
{
    let ghost names = crate::text::strings_of(senders.names@);
    let ghost active = crate::ops::opt_string(senders.active);
    let mut items: Vec<MenuLeaf> = Vec::new();
    if senders.names.len() == 0 {
        push_item(&mut items, item("noop", "(aucun sender Spout d\u{e9}tect\u{e9})", false));
    } else {
        let mut i: usize = 0;
        while i < senders.names.len()
            invariant
                names == crate::text::strings_of(senders.names@),
                active == crate::ops::opt_string(senders.active),
                i <= senders.names@.len(),
                leaves_view(items@) == Seq::new(i as nat, |k: int| sender_item(names[k], active)),
            decreases senders.names@.len() - i,
        {
            let s = senders.names[i].as_str();
            let is_active = match &senders.active {
                Some(a) => str_eq(a.as_str(), s),
                None => false,
            };
            let mut label = joined("Spout: ", s);
            if is_active {
                push_str(&mut label, "  (actif)");
            }
            let ghost before = leaves_view(items@);
            push_item(&mut items, MenuLeaf::Item { id: joined("add-spout\u{1f}", s), label, enabled: true });
            proof {
                assert(names[i as int] == s@);
                assert(leaves_view(items@) =~= Seq::new((i + 1) as nat, |k: int| sender_item(names[k], active)));
            }
            i = i + 1;
        }
    }
    let ghost first = leaves_view(items@);
    push_item(&mut items, MenuLeaf::Separator);
    push_item(&mut items, item("add-screen", "Capture d'\u{e9}cran", true));
    proof {
        assert(first =~= (if names.len() == 0 {
            seq![LeafView::Item("noop"@, "(aucun sender Spout d\u{e9}tect\u{e9})"@, false)]
        } else {
            Seq::new(names.len(), |i: int| sender_item(names[i], active))
        }));
        assert(leaves_view(items@) =~= add_items(names, active));
    }
    MenuEntry::Submenu { label: String::from_str("Ajouter un transmetteur"), enabled: true, items }
}

/// Build the context menu from the transmitters, the viewers, a status
/// snapshot and the live Spout senders.
#[verifier::rlimit(40)]
pub fn build_menu(
    transmitters: &Vec<Transmitter>,
    viewers: &Vec<Viewer>,
    status: &StatusTable,
    senders: &SpoutSenders,
) -> (r: Vec<MenuEntry>)
    ensures
        entries_view(r@) == menu_spec(
            transmitters@,
            viewers@,
            status@,
            crate::text::strings_of(senders.names@),
            crate::ops::opt_string(senders.active),
        ),
{
    let mut menu: Vec<MenuEntry> = Vec::new();
    push_leaf(&mut menu, item("noop", "KyberFrog \u{1f438}", false));
    push_leaf(&mut menu, MenuLeaf::Separator);
    push_leaf(&mut menu, item("noop", "\u{2014} \u{c9}mission \u{2014}", false));
    let ghost head = entries_view(menu@);
    if transmitters.len() == 0 {
        push_leaf(&mut menu, item("noop", "(aucun transmetteur)", false));
    } else {
        let mut i: usize = 0;
        while i < transmitters.len()
            invariant
                i <= transmitters@.len(),
                entries_view(menu@) == head + Seq::new(i as nat, |k: int| tx_entry(transmitters@[k], status@)),
            decreases transmitters@.len() - i,
        {
            let ghost before = menu@;
            let e = tx_menu_entry(&transmitters[i], status);
            menu.push(e);
            proof {
                assert(entries_view(menu@) =~= entries_view(before).push(e@));
                assert(entries_view(menu@) =~= head + Seq::new((i + 1) as nat, |k: int| tx_entry(transmitters@[k], status@)));
            }
            i = i + 1;
        }
    }
    let ghost after_tx = entries_view(menu@);
    let add = add_submenu(senders);
    let ghost before_add = menu@;
    menu.push(add);
    assert(entries_view(menu@) =~= entries_view(before_add).push(add@));
    push_leaf(&mut menu, MenuLeaf::Separator);
    push_leaf(&mut menu, item("noop", "\u{2014} R\u{e9}ception \u{2014}", false));
    let ghost mid = entries_view(menu@);
    if viewers.len() == 0 {
        push_leaf(&mut menu, item("noop", "(aucune r\u{e9}ception)", false));
    } else {
        let mut i: usize = 0;
        while i < viewers.len()
            invariant
                i <= viewers@.len(),
                entries_view(menu@) == mid + Seq::new(i as nat, |k: int| viewer_entry(viewers@[k], status@)),
            decreases viewers@.len() - i,
        {
            let ghost before = menu@;
            let e = viewer_menu_entry(&viewers[i], status);
            menu.push(e);
            proof {
                assert(entries_view(menu@) =~= entries_view(before).push(e@));
                assert(entries_view(menu@) =~= mid + Seq::new((i + 1) as nat, |k: int| viewer_entry(viewers@[k], status@)));
            }
            i = i + 1;
        }
    }
    let ghost after_vw = entries_view(menu@);
    push_leaf(&mut menu, MenuLeaf::Separator);
    push_leaf(&mut menu, item("open-dashboard", "Ouvrir dashboard", true));
    push_leaf(&mut menu, item("open-config", "Ouvrir config", true));
    push_leaf(&mut menu, item("open-logs", "Ouvrir logs", true));
    push_leaf(&mut menu, MenuLeaf::Separator);
    push_leaf(&mut menu, item("quit", "Quitter", true));
    proof {
        let s = status@;
        let txs = transmitters@;
        let vws = viewers@;
        assert(after_tx =~= head + (if txs.len() == 0 {
            seq![note("(aucun transmetteur)"@)]
        } else {
            Seq::new(txs.len(), |i: int| tx_entry(txs[i], s))
        }));
        assert(after_vw =~= mid + (if vws.len() == 0 {
            seq![note("(aucune r\u{e9}ception)"@)]
        } else {
            Seq::new(vws.len(), |i: int| viewer_entry(vws[i], s))
        }));
        assert(entries_view(menu@) =~= menu_spec(
            txs,
            vws,
            s,
            crate::text::strings_of(senders.names@),
            crate::ops::opt_string(senders.active),
        ));
    }
    menu
}

/// Where an "open" item of the menu points.
#[derive(Clone, Copy, Debug, PartialEq, Eq, Structural)]
pub enum OpenTarget {
    Dashboard,
    Config,
    Logs,
}

/// The "open" item a menu id names, handled by the tray itself.
pub open spec fn open_target_of(id: Seq<char>) -> Option<OpenTarget> {
    if id == "open-dashboard"@ {
        Some(OpenTarget::Dashboard)
    } else if id == "open-config"@ {
        Some(OpenTarget::Config)
    } else if id == "open-logs"@ {
        Some(OpenTarget::Logs)
    } else {
        None
    }
}

/// The "open" item a menu id names, if any.
pub fn open_target(id: &str) -> (r: Option<OpenTarget>)
    ensures
        r == open_target_of(id@),
{
    if str_eq(id, "open-dashboard") {
        Some(OpenTarget::Dashboard)
    } else if str_eq(id, "open-config") {
        Some(OpenTarget::Config)
    } else if str_eq(id, "open-logs") {
        Some(OpenTarget::Logs)
    } else {
        None
    }
}

} // verus!
