//! The message box's questions (delete a message for everyone, clear or remove a conversation), the
//! conversation's menu, and forwarding a message to another conversation.

use vstd::prelude::*;
use crate::chat::{Chat, sent, two_digit, chat_number};
use crate::chat_actions::about;
use crate::chat_lists::{list_order, overflow, clamped};
use crate::items::{Message, Conversation, Delivery, MAX_CHATS, MESSAGE_CAPACITY, NAME_CAPACITY};
use crate::screen::{Store, Scroll, Screen, Marks, Dialog, Boxes, message_wf, empty_field, filled_field, DIALOG_TITLE_CAPACITY,
    DIALOG_BODY_CAPACITY};
use crate::text::{string_of, chars_of, digit_char, decimal};

verus! {

/// The list of conversations to forward to: row height and the visible height of the list.
pub const FORWARD_ROW_H: i32 = 56;
pub const FORWARD_LIST_H: i32 = 336;

/// The conversations in use, freshest first (the higher rank first, the lower number for the same rank).
pub open spec fn forward_order(conversations: Seq<Conversation>, targets: Seq<u8>) -> bool {
    &&& forall|i: int, j: int| 0 <= i < j < targets.len() ==> crate::chat_lists::list_before(conversations, targets[i] as int, targets[j] as int)
    &&& forall|k: int| 0 <= k < MAX_CHATS ==> (conversations[k].used <==> targets.contains(k as u8))
    &&& forall|i: int| 0 <= i < targets.len() ==> (targets[i] as int) < MAX_CHATS
}

/// The messages of conversations other than `chat`, in order.
pub open spec fn others(messages: Seq<Message>, chat: int) -> Seq<Message>
    decreases messages.len(),
{
    if messages.len() == 0 {
        Seq::empty()
    } else {
        (if messages[0].chat as int != chat { seq![messages[0]] } else { Seq::empty() }) + others(messages.drop_first(), chat)
    }
}

/// `text` and a conversation number written as `SEND` writes them: `head`, the number, a tab, `text`.
pub open spec fn send_line(head: Seq<char>, chat: int, text: Seq<char>) -> Seq<char> {
    head + chat_number(chat) + seq!['\t'] + text
}

/// The open conversation silenced or heard again.
pub open spec fn silence_toggled(prior: Chat, next: Chat) -> bool {
    &&& ({
        let chat = prior.screen.selected as int;
        let silenced = !prior.store.conversations@[chat].silenced;
        &&& next.store.conversations@ == prior.store.conversations@.update(chat,
            Conversation { silenced, ..prior.store.conversations@[chat] })
        &&& sent(prior.outbox@, next.outbox@, "MUTE\t"@ + two_digit(chat) + seq!['\t', if silenced { '1' } else { '0' }])
        &&& next == (Chat { store: Store { conversations: next.store.conversations, ..prior.store },
            outbox: next.outbox, ..prior })
    })
}

/// The message box asks whether to clear the open conversation.
pub open spec fn clear_asked(prior: Chat, next: Chat) -> bool {
    &&& next.dialog.title@ == filled_field("Limpar esta conversa?"@, DIALOG_TITLE_CAPACITY as nat)
    &&& next.dialog.body@ == filled_field("Todas as mensagens serão removidas desta conversa. As mensagens favoritas também."@,
        DIALOG_BODY_CAPACITY as nat)
    &&& next == (Chat { dialog: Dialog { title: next.dialog.title, body: next.dialog.body, open: true,
        confirm_clear: Some(prior.screen.selected), ..prior.dialog }, ..prior })
}

/// The message box asks whether to remove the open conversation.
pub open spec fn remove_asked(prior: Chat, next: Chat) -> bool {
    &&& next.dialog.title@ == filled_field("Apagar esta conversa?"@, DIALOG_TITLE_CAPACITY as nat)
    &&& next.dialog.body@ == filled_field("A conversa e todas as suas mensagens serão removidas. Isso não pode ser desfeito."@,
        DIALOG_BODY_CAPACITY as nat)
    &&& next == (Chat { dialog: Dialog { title: next.dialog.title, body: next.dialog.body, open: true,
        confirm_remove: Some(prior.screen.selected), ..prior.dialog }, ..prior })
}

/// The message box asks whether to delete message `index` for everyone.
pub open spec fn delete_asked(prior: Chat, next: Chat, index: usize) -> bool {
    &&& ({
        let m = prior.store.messages@[index as int];
        &&& (!m.outgoing || m.deleted || m.id@.len() == 0) ==> next == prior
        &&& !(!m.outgoing || m.deleted || m.id@.len() == 0) ==> ({
            &&& next.dialog.title@ == filled_field("Apagar mensagem?"@, DIALOG_TITLE_CAPACITY as nat)
            &&& next.dialog.body@ == filled_field("Esta mensagem será apagada para todos na conversa. Isso não pode ser desfeito."@,
                DIALOG_BODY_CAPACITY as nat)
            &&& next == (Chat { dialog: Dialog { title: next.dialog.title, body: next.dialog.body, open: true,
                confirm_delete: Some(index), ..prior.dialog }, ..prior })
        })
    })
}

impl Chat {
    /// Whether the message box asks something (its main button then deletes or clears).
    pub fn confirming(&self) -> (asks: bool)
        ensures
            asks == self.dialog.asks(),
    {
        self.dialog.confirm_delete.is_some() || self.dialog.confirm_clear.is_some() || self.dialog.confirm_remove.is_some()
    }

    /// Asks before deleting our message `index` for everyone (the message box has Cancel and Delete).
    pub fn ask_delete(&mut self, index: usize)
        requires
            old(self).wf(),
            index < old(self).store.messages@.len(),
        ensures
            final(self).wf(),
            delete_asked(*old(self), *final(self), index),
    {
        let message = &self.store.messages[index];
        if !message.outgoing || message.deleted || message.id.unicode_len() == 0 {
            return;
        }
        self.dialog.show("Apagar mensagem?", "Esta mensagem será apagada para todos na conversa. Isso não pode ser desfeito.");
        self.dialog.confirm_delete = Some(index);
    }

    /// "Limpar conversa": asks first.
    pub fn ask_clear(&mut self)
        requires
            old(self).wf(),
        ensures
            final(self).wf(),
            clear_asked(*old(self), *final(self)),
    {
        self.dialog.show("Limpar esta conversa?", "Todas as mensagens serão removidas desta conversa. As mensagens favoritas também.");
        self.dialog.confirm_clear = Some(self.screen.selected);
    }

    /// "Apagar conversa": asks first.
    pub fn ask_remove(&mut self)
        requires
            old(self).wf(),
        ensures
            final(self).wf(),
            remove_asked(*old(self), *final(self)),
    {
        self.dialog.show("Apagar esta conversa?", "A conversa e todas as suas mensagens serão removidas. Isso não pode ser desfeito.");
        self.dialog.confirm_remove = Some(self.screen.selected);
    }

    /// "Silenciar notificações" / "Reativar notificações": the core is told (`MUTE chat 1|0`).
    pub fn toggle_silence(&mut self)
        requires
            old(self).wf(),
        ensures
            final(self).wf(),
            silence_toggled(*old(self), *final(self)),
    {
        let chat = self.screen.selected;
        let silenced = !self.store.conversations[chat].silenced;
        self.store.conversations[chat].silenced = silenced;
        proof {
            assert forall|i: int| 0 <= i < MAX_CHATS implies (#[trigger] self.store.conversations@[i]).draft@.len() <= MESSAGE_CAPACITY
                && self.store.conversations@[i].name@.len() <= NAME_CAPACITY by {
                assert(old(self).store.conversations@[i].draft@.len() <= MESSAGE_CAPACITY);
            }
        }
        let mut line = chars_of("MUTE\t");
        line.push(digit_char((chat / 10) as u64));
        line.push(digit_char((chat % 10) as u64));
        line.push('\t');
        line.push(if silenced { '1' } else { '0' });
        proof { reveal_strlit("MUTE\t"); }
        assert(line@ =~= "MUTE\t"@ + two_digit(chat as int) + seq!['\t', if silenced { '1' } else { '0' }]);
        self.tell_core(string_of(line.as_slice()));
    }

    /// Drops the messages of `chat` from the screen (the others keep their order); the flash, the
    /// reply, the message menu and the scroll go.
    pub fn clear_messages_of(&mut self, chat: usize)
        requires
            old(self).wf(),
        ensures
            final(self).wf(),
            final(self).store.messages@ == others(old(self).store.messages@, chat as int),
            final(self).marks == (Marks { flash: None, message_menu: None, ..old(self).marks }),
            final(self).scroll == (Scroll { conversation: 0, ..old(self).scroll }),
            final(self).boxes.reply_to@.len() == 0 && !final(self).boxes.editing,
            old(self).boxes.editing ==> final(self).boxes.draft@ == empty_field(),
            !old(self).boxes.editing ==> final(self).boxes.draft == old(self).boxes.draft,
            *final(self) == (Chat { store: Store { messages: final(self).store.messages, ..old(self).store }, marks: final(self).marks,
                scroll: final(self).scroll, boxes: Boxes { reply_to: final(self).boxes.reply_to, editing: false, draft: final(self).boxes.draft,
                ..old(self).boxes }, ..*old(self) }),
    {
        let mut kept: Vec<Message> = Vec::new();
        let mut all: Vec<Message> = Vec::new();
        std::mem::swap(&mut all, &mut self.store.messages);
        let ghost before = all@;
        while all.len() > 0
            invariant
                before == old(self).store.messages@,
                kept@ + others(all@, chat as int) == others(before, chat as int),
                forall|j: int| 0 <= j < kept@.len() ==> message_wf(#[trigger] kept@[j]),
                forall|j: int| 0 <= j < all@.len() ==> message_wf(#[trigger] all@[j]),
                kept@.len() + all@.len() <= before.len(),
                before.len() <= crate::screen::MAX_MESSAGES,
            decreases all@.len(),
        {
            let ghost was = all@;
            let m = all.remove(0);
            assert(all@ =~= was.drop_first());
            assert(message_wf(was[0]));
            if m.chat as usize != chat {
                kept.push(m);
            }
            assert(kept@ + others(all@, chat as int) =~= others(before, chat as int));
        }
        self.store.messages = kept;
        self.marks.flash = None;
        self.cancel_reply();
        self.marks.message_menu = None;
        self.scroll.conversation = 0;
    }
}

} // verus!
