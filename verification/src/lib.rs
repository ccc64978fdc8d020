//! The logic of the ZapZap WhatsApp client, verified: the line protocol between its processes, the
//! voice-call state machine, the address book, the reaction counts, the QR encoder for pairing, the
//! packing of glyph bitmaps, and what the chat screen knows and does.

pub mod bake;
pub mod canvas;
pub mod call;
pub mod chat;
pub mod chat_actions;
pub mod chat_dialogs;
pub mod chat_flow;
pub mod chat_forward;
pub mod chat_keys;
pub mod chat_lists;
pub mod chat_media;
pub mod chat_messages;
pub mod chat_open;
pub mod contacts;
pub mod dates;
pub mod demo;
pub mod demo_loop;
pub mod field;
pub mod font;
pub mod icons;
pub mod items;
pub mod layout;
pub mod lines;
pub mod link;
pub mod qr;
pub mod pack;
pub mod presence;
pub mod reactions;
pub mod screen;
pub mod text;
pub mod thumb;
pub mod view;
pub mod window;

