//! The stand-in for a WhatsApp account: the conversations, contacts, calls and stories that
//! `zapzap-core --demo` plays for the ui, and how its pretend contacts answer a call.

use vstd::prelude::*;
use crate::call::{line_of, Event, EventView};
use crate::text::{decimal, push_decimal, string_of};

verus! {

/// How long a pretend contact takes to pick up, or to say they are busy (ms).
pub const RING_FOR_MS: u64 = 2500;
/// How long a call rings before nobody answering ends it (ms).
pub const NO_ANSWER_AFTER_MS: u64 = 8000;
/// How many contacts the ui keeps at a time.
pub const UI_CONTACTS: usize = 40;

/// (name, status, unread)
pub const CHATS: [(&'static str, &'static str, u8); 8] = [
    ("Ana", "online", 0),
    ("Família", "Mãe, Pai, Julia, você", 3),
    ("Trabalho", "8 participantes", 12),
    ("Bruno", "visto por último hoje às 09:48", 0),
    ("Grupo da faculdade", "42 participantes", 0),
    ("Carlos", "online", 0),
    ("Mercado", "conta comercial", 1),
    ("Julia", "visto por último sexta-feira", 0),
];

/// (message, the message it answers): history entries that quote an earlier one.
pub const QUOTED: [(usize, usize); 2] = [(12, 11), (14, 13)];

/// (history entry, kind, width, height, label): entries that carry a photo, video, voice or document.
/// Kinds are the ones of the `MEDIA` line: 1 photo, 2 video, 3 voice, 4 document.
pub const MEDIA: [(usize, u8, u32, u32, &'static str); 4] = [(30, 1, 1600, 1200, ""), (31, 2, 1280, 720, "0:24"), (32, 3, 0, 0, "0:12"), (33, 4, 0, 0, "Cardápio da semana.pdf")];

/// (conversation, sent by me, text, time)
pub const HISTORY: [(usize, bool, &'static str, &'static str); 34] = [
    (0, false, "Oi! Vamos almoçar hoje?", "12:31"),
    (0, true, "Bora! Onde você quer ir?", "12:33"),
    (0, false, "Aquele restaurante perto do escritório, o de comida por quilo que abriu semana passada.", "12:35"),
    (0, true, "Fechado. Chego lá em 20 minutos.", "12:36"),
    (0, false, "Perfeito! Vou pedir uma mesa perto da janela.", "12:37"),
    (0, false, "Ah, chama o Bruno também?", "12:37"),
    (0, true, "Chamei, mas ele disse que já tinha marcado reunião com o cliente às 13h.", "12:39"),
    (0, false, "Que pena! Fica pra próxima então.", "12:40"),
    (0, true, "Combinado. Já estou saindo do prédio, me espera na entrada?", "12:41"),
    (0, false, "Tô te esperando aqui na frente.", "12:42"),
    (0, false, "Aliás, o cardápio de hoje tem feijoada e uma opção vegetariana que parece ótima.", "12:42"),
    (0, true, "Feijoada com certeza. Preciso de energia pra tarde inteira de planilha.", "12:44"),
    (0, false, "Kkkkk verdade, a sua semana está pesada 😂😂", "12:45"),
    (0, true, "Cheguei! Estou de camisa azul 🙂", "12:52"),
    (0, false, "Te vi! Pode vir. 😄", "12:53"),
    (1, false, "Filho, já saímos da estrada.", "10:40"),
    (1, false, "Trânsito tranquilo, deve dar umas duas horas ainda.", "10:41"),
    (1, true, "Boa viagem, avisa quando chegar!", "10:50"),
    (1, false, "Chegamos bem ❤️", "11:02"),
    (2, false, "Pessoal, o deploy de hoje vai sair depois do almoço.", "09:30"),
    (2, true, "Beleza. Os testes de regressão passaram todos.", "09:41"),
    (2, false, "Deploy saiu 🚀", "10:15"),
    (3, true, "Consegue me mandar o relatório do trimestre?", "09:40"),
    (3, false, "Mandei o arquivo. Vai Brasil 🇧🇷!", "09:48"),
    (4, false, "Pessoal, a prova de sexta foi adiada.", "Ontem"),
    (4, false, "Prova adiada 🎉", "Ontem"),
    (5, false, "Valeu! 👍🏽", "Ontem"),
    (6, false, "Seu pedido saiu para entrega", "Sáb"),
    (7, false, "Kkkkk 🤣", "Sex"),
    (7, true, "Verdade!", "Sex"),
    (1, false, "Olha como ficou a mesa", "11:01"),
    (1, false, "", "11:01"),
    (1, true, "", "11:02"),
    (1, false, "", "11:03"),
];

pub const FAVORITES: [&'static str; 3] = ["Mãe", "Bruno", "Grupo da faculdade"];

/// (kind: 0 received, 1 missed, 2 outgoing, count, time, name)
pub const CALLS: [(u8, u8, &'static str, &'static str); 8] = [
    (0, 1, "10:12", "Mãe"),
    (0, 2, "Ontem", "Mãe"),
    (1, 1, "sexta-feira", "Bruno"),
    (0, 1, "quinta-feira", "Ana"),
    (2, 1, "quinta-feira", "Carlos"),
    (1, 3, "quarta-feira", "Trabalho"),
    (0, 1, "terça-feira", "Julia"),
    (2, 1, "segunda-feira", "Mãe"),
];

/// (segments, unseen, time, name)
pub const STORIES: [(u8, u8, &'static str, &'static str); 3] = [(4, 1, "Hoje às 10:40", "Tia Darc"), (3, 0, "Ontem às 21:53", "Tio Raul"), (2, 0, "Ontem às 12:19", "Alexandre")];

/// (unread, time, name, preview)
pub const CHANNELS: [(u16, &'static str, &'static str, &'static str); 3] = [
    (208, "10:53", "Memes Melted Videos", "Foco no STF pt2 👀"),
    (71, "10:13", "Pastor Antônio Júnior", "Receba esta oração e tenha um dia abençoado."),
    (61, "sexta-feira", "Netflix Brasil", "E AGORA? Você só pode assistir uma série a vida inteira."),
];

/// (verified, followers, name)
pub const SUGGESTIONS: [(u8, &'static str, &'static str); 5] = [
    (1, "14 M seguidores", "Pack de Figurinhas"),
    (1, "120 mil seguidores", "Roblox Brasil"),
    (0, "77 mil seguidores", "MINECRAFT ADDONS"),
    (0, "7,9 mil seguidores", "Momento De Oração"),
    (1, "1 M seguidores", "Rafa & Luiz"),
];

/// Contacts of the new-conversation panel, in alphabetical order with the numbers first.
pub const CONTACTS: [&'static str; 14] = [
    "996985554", "Acor", "Airton", "Airton Vieira", "Ana", "Bruno", "Carlos", "Família", "Grupo da faculdade", "Julia", "Mãe", "Mercado", "Osmar", "Trabalho",
];

// ---- the opening of the demo

/// "1" or "0".
pub open spec fn flag(on: bool) -> Seq<char> {
    if on { "1"@ } else { "0"@ }
}

/// The id the demo gives history entry `n`: `d` and its number.
pub open spec fn history_id(n: nat) -> Seq<char> {
    seq!['d'] + decimal(n)
}

/// The time of the last history message of conversation `chat` among the first `k`, or nothing.
pub open spec fn last_time(chat: usize, k: int) -> Seq<char>
    decreases k,
{
    if k <= 0 || k > HISTORY@.len() {
        seq![]
    } else if HISTORY@[k - 1].0 == chat {
        HISTORY@[k - 1].3@
    } else {
        last_time(chat, k - 1)
    }
}

pub open spec fn chat_line(id: int) -> Seq<Seq<char>> {
    seq!["CHAT"@, decimal(id as nat), decimal(CHATS@[id].2 as nat), last_time(id as usize, HISTORY@.len() as int), CHATS@[id].0@, CHATS@[id].1@]
}

/// The entry history entry `n` quotes, if it quotes one.
pub open spec fn quoted(n: int) -> Option<usize> {
    if QUOTED@[0].0 == n { Some(QUOTED@[0].1) } else if QUOTED@[1].0 == n { Some(QUOTED@[1].1) } else { None }
}

/// The photo, video, voice message or document history entry `n` carries, if it carries one.
pub open spec fn media_of(n: int) -> Option<int> {
    if MEDIA@[0].0 == n { Some(0) } else if MEDIA@[1].0 == n { Some(1) } else if MEDIA@[2].0 == n { Some(2) }
    else if MEDIA@[3].0 == n { Some(3) } else { None }
}

pub open spec fn message_line(n: int) -> Seq<Seq<char>> {
    let (chat, outgoing, text, time) = HISTORY@[n];
    let reply = match quoted(n) { Some(q) => history_id(q as nat), None => seq![] };
    seq!["MSG"@, decimal(chat as nat), flag(outgoing), flag(outgoing), time@, history_id(n as nat), reply, text@]
}

pub open spec fn media_line(n: int, m: int) -> Seq<Seq<char>> {
    let (_, kind, width, height, label) = MEDIA@[m];
    seq!["MEDIA"@, decimal(HISTORY@[n].0 as nat), history_id(n as nat), decimal(kind as nat), decimal(width as nat), decimal(height as nat), label@]
}

/// The lines of the first `k` history entries: each message, and what it carries when it carries something.
pub open spec fn history_lines(k: int) -> Seq<Seq<Seq<char>>>
    decreases k,
{
    if k <= 0 {
        seq![]
    } else {
        let before = history_lines(k - 1).push(message_line(k - 1));
        match media_of(k - 1) {
            Some(m) => before.push(media_line(k - 1, m)),
            None => before,
        }
    }
}

pub open spec fn call_line(i: int) -> Seq<Seq<char>> {
    let (kind, count, time, name) = CALLS@[i];
    seq!["CALL"@, decimal(kind as nat), decimal(count as nat), time@, name@]
}

pub open spec fn story_line(i: int) -> Seq<Seq<char>> {
    let (segments, unseen, time, name) = STORIES@[i];
    seq!["STORY"@, decimal(segments as nat), decimal(unseen as nat), time@, name@]
}

pub open spec fn channel_line(i: int) -> Seq<Seq<char>> {
    let (unread, time, name, preview) = CHANNELS@[i];
    seq!["CHANNEL"@, decimal(unread as nat), time@, name@, preview@]
}

pub open spec fn suggestion_line(i: int) -> Seq<Seq<char>> {
    let (verified, followers, name) = SUGGESTIONS@[i];
    seq!["SUGGEST"@, decimal(verified as nat), followers@, name@]
}

/// Everything the demo tells the ui before it opens the chat screen, in order.
pub open spec fn opening() -> Seq<Seq<Seq<char>>> {
    seq![seq!["RESET"@]]
        + Seq::new(CHATS@.len(), |i: int| chat_line(i))
        + history_lines(HISTORY@.len() as int)
        + seq![seq!["REACTIONS"@, "0"@, "d1"@, ""@, "👍:1"@], seq!["REACTIONS"@, "0"@, "d0"@, "❤"@, "❤:2 😂:1"@],
            seq!["STARRED"@, "0"@, "d2"@, "1"@]]
        + Seq::new(FAVORITES@.len(), |i: int| seq!["FAVORITE"@, FAVORITES@[i]@])
        + Seq::new(CALLS@.len(), |i: int| call_line(i))
        + seq![seq!["PROFILE"@, "zapzap"@], seq!["MYSTORY"@, "Ontem às 13:11"@]]
        + Seq::new(STORIES@.len(), |i: int| story_line(i))
        + Seq::new(CHANNELS@.len(), |i: int| channel_line(i))
        + Seq::new(SUGGESTIONS@.len(), |i: int| suggestion_line(i))
        + seq![seq!["OPEN"@]]
}

fn number_text(n: u64) -> (text: String)
    ensures
        text@ == decimal(n as nat),
{
    let mut digits: Vec<char> = Vec::new();
    push_decimal(n, &mut digits);
    assert(digits@ =~= decimal(n as nat));
    string_of(digits.as_slice())
}

fn id_text(n: u64) -> (text: String)
    ensures
        text@ == history_id(n as nat),
{
    let mut digits: Vec<char> = Vec::new();
    digits.push('d');
    push_decimal(n, &mut digits);
    assert(digits@ =~= history_id(n as nat));
    string_of(digits.as_slice())
}

fn flag_text(on: bool) -> (text: String)
    ensures
        text@ == flag(on),
{
    if on { "1".to_owned() } else { "0".to_owned() }
}

/// Appends `line` to `lines`.
fn push_line(lines: &mut Vec<Vec<String>>, line: Vec<String>)
    ensures
        final(lines).deep_view() == old(lines).deep_view().push(line.deep_view()),
{
    lines.push(line);
    assert(final(lines).deep_view() =~= old(lines).deep_view().push(line.deep_view()));
}

fn last_time_of(chat: usize) -> (time: &'static str)
    ensures
        time@ == last_time(chat, HISTORY@.len() as int),
{
    let mut k: usize = HISTORY.len();
    while k > 0 && HISTORY[k - 1].0 != chat
        invariant
            0 <= k <= HISTORY@.len(),
            last_time(chat, HISTORY@.len() as int) == last_time(chat, k as int),
        decreases k,
    {
        k = k - 1;
    }
    if k == 0 {
        assert(""@.len() == 0) by {
            reveal_strlit("");
        }
        assert(""@ =~= Seq::<char>::empty());
        ""
    } else {
        HISTORY[k - 1].3
    }
}

/// The first lines for the ui: the conversations and their messages, the calls, the statuses and the
/// channels, then `OPEN`.
pub fn opening_lines() -> (lines: Vec<Vec<String>>)
    ensures
        lines.deep_view() == opening(),
{
    let mut lines: Vec<Vec<String>> = Vec::new();
    let line = line_of(&["RESET"]);
    assert(line.deep_view() =~= seq!["RESET"@]);
    push_line(&mut lines, line);
    let ghost start = lines.deep_view();
    let mut id: usize = 0;
    while id < CHATS.len()
        invariant
            0 <= id <= CHATS@.len(),
            lines.deep_view() == start + Seq::new(id as nat, |i: int| chat_line(i)),
        decreases CHATS@.len() - id,
    {
        let (name, status, unread) = CHATS[id];
        let mut line: Vec<String> = Vec::new();
        line.push("CHAT".to_owned());
        line.push(number_text(id as u64));
        line.push(number_text(unread as u64));
        line.push(last_time_of(id).to_owned());
        line.push(name.to_owned());
        line.push(status.to_owned());
        assert(line.deep_view() =~= chat_line(id as int));
        push_line(&mut lines, line);
        assert(lines.deep_view() =~= start + Seq::new((id + 1) as nat, |i: int| chat_line(i)));
        id = id + 1;
    }
    let ghost start = lines.deep_view();
    let mut number: usize = 0;
    while number < HISTORY.len()
        invariant
            0 <= number <= HISTORY@.len(),
            lines.deep_view() == start + history_lines(number as int),
        decreases HISTORY@.len() - number,
    {
        let (chat, outgoing, text, time) = HISTORY[number];
        let reply = if QUOTED[0].0 == number {
            id_text(QUOTED[0].1 as u64)
        } else if QUOTED[1].0 == number {
            id_text(QUOTED[1].1 as u64)
        } else {
            String::new()
        };
        let mut line: Vec<String> = Vec::new();
        line.push("MSG".to_owned());
        line.push(number_text(chat as u64));
        line.push(flag_text(outgoing));
        line.push(flag_text(outgoing));
        line.push(time.to_owned());
        line.push(id_text(number as u64));
        line.push(reply);
        line.push(text.to_owned());
        assert(line.deep_view() =~= message_line(number as int));
        push_line(&mut lines, line);
        let mut m: usize = 0;
        while m < MEDIA.len() && MEDIA[m].0 != number
            invariant
                0 <= m <= MEDIA@.len(),
                forall|j: int| 0 <= j < m ==> MEDIA@[j].0 != number,
            decreases MEDIA@.len() - m,
        {
            m = m + 1;
        }
        if m < MEDIA.len() {
            let (_, kind, width, height, label) = MEDIA[m];
            let mut media: Vec<String> = Vec::new();
            media.push("MEDIA".to_owned());
            media.push(number_text(chat as u64));
            media.push(id_text(number as u64));
            media.push(number_text(kind as u64));
            media.push(number_text(width as u64));
            media.push(number_text(height as u64));
            media.push(label.to_owned());
            assert(media_of(number as int) == Some(m as int));
            assert(media.deep_view() =~= media_line(number as int, m as int));
            push_line(&mut lines, media);
        } else {
            assert(media_of(number as int) is None);
        }
        assert(lines.deep_view() =~= start + history_lines(number + 1));
        number = number + 1;
    }
    let line = line_of(&["REACTIONS", "0", "d1", "", "👍:1"]);
    assert(line.deep_view() =~= seq!["REACTIONS"@, "0"@, "d1"@, ""@, "👍:1"@]);
    push_line(&mut lines, line);
    let line = line_of(&["REACTIONS", "0", "d0", "❤", "❤:2 😂:1"]);
    assert(line.deep_view() =~= seq!["REACTIONS"@, "0"@, "d0"@, "❤"@, "❤:2 😂:1"@]);
    push_line(&mut lines, line);
    let line = line_of(&["STARRED", "0", "d2", "1"]);
    assert(line.deep_view() =~= seq!["STARRED"@, "0"@, "d2"@, "1"@]);
    push_line(&mut lines, line);
    let ghost start = lines.deep_view();
    let mut f: usize = 0;
    while f < FAVORITES.len()
        invariant
            0 <= f <= FAVORITES@.len(),
            lines.deep_view() == start + Seq::new(f as nat, |i: int| seq!["FAVORITE"@, FAVORITES@[i]@]),
        decreases FAVORITES@.len() - f,
    {
        let line = line_of(&["FAVORITE", FAVORITES[f]]);
        assert(line.deep_view() =~= seq!["FAVORITE"@, FAVORITES@[f as int]@]);
        push_line(&mut lines, line);
        assert(lines.deep_view() =~= start + Seq::new((f + 1) as nat, |i: int| seq!["FAVORITE"@, FAVORITES@[i]@]));
        f = f + 1;
    }
    let ghost start = lines.deep_view();
    let mut c: usize = 0;
    while c < CALLS.len()
        invariant
            0 <= c <= CALLS@.len(),
            lines.deep_view() == start + Seq::new(c as nat, |i: int| call_line(i)),
        decreases CALLS@.len() - c,
    {
        let (kind, count, time, name) = CALLS[c];
        let mut line: Vec<String> = Vec::new();
        line.push("CALL".to_owned());
        line.push(number_text(kind as u64));
        line.push(number_text(count as u64));
        line.push(time.to_owned());
        line.push(name.to_owned());
        assert(line.deep_view() =~= call_line(c as int));
        push_line(&mut lines, line);
        assert(lines.deep_view() =~= start + Seq::new((c + 1) as nat, |i: int| call_line(i)));
        c = c + 1;
    }
    let line = line_of(&["PROFILE", "zapzap"]);
    assert(line.deep_view() =~= seq!["PROFILE"@, "zapzap"@]);
    push_line(&mut lines, line);
    let line = line_of(&["MYSTORY", "Ontem às 13:11"]);
    assert(line.deep_view() =~= seq!["MYSTORY"@, "Ontem às 13:11"@]);
    push_line(&mut lines, line);
    let ghost start = lines.deep_view();
    let mut t: usize = 0;
    while t < STORIES.len()
        invariant
            0 <= t <= STORIES@.len(),
            lines.deep_view() == start + Seq::new(t as nat, |i: int| story_line(i)),
        decreases STORIES@.len() - t,
    {
        let (segments, unseen, time, name) = STORIES[t];
        let mut line: Vec<String> = Vec::new();
        line.push("STORY".to_owned());
        line.push(number_text(segments as u64));
        line.push(number_text(unseen as u64));
        line.push(time.to_owned());
        line.push(name.to_owned());
        assert(line.deep_view() =~= story_line(t as int));
        push_line(&mut lines, line);
        assert(lines.deep_view() =~= start + Seq::new((t + 1) as nat, |i: int| story_line(i)));
        t = t + 1;
    }
    let ghost start = lines.deep_view();
    let mut h: usize = 0;
    while h < CHANNELS.len()
        invariant
            0 <= h <= CHANNELS@.len(),
            lines.deep_view() == start + Seq::new(h as nat, |i: int| channel_line(i)),
        decreases CHANNELS@.len() - h,
    {
        let (unread, time, name, preview) = CHANNELS[h];
        let mut line: Vec<String> = Vec::new();
        line.push("CHANNEL".to_owned());
        line.push(number_text(unread as u64));
        line.push(time.to_owned());
        line.push(name.to_owned());
        line.push(preview.to_owned());
        assert(line.deep_view() =~= channel_line(h as int));
        push_line(&mut lines, line);
        assert(lines.deep_view() =~= start + Seq::new((h + 1) as nat, |i: int| channel_line(i)));
        h = h + 1;
    }
    let ghost start = lines.deep_view();
    let mut g: usize = 0;
    while g < SUGGESTIONS.len()
        invariant
            0 <= g <= SUGGESTIONS@.len(),
            lines.deep_view() == start + Seq::new(g as nat, |i: int| suggestion_line(i)),
        decreases SUGGESTIONS@.len() - g,
    {
        let (verified, followers, name) = SUGGESTIONS[g];
        let mut line: Vec<String> = Vec::new();
        line.push("SUGGEST".to_owned());
        line.push(number_text(verified as u64));
        line.push(followers.to_owned());
        line.push(name.to_owned());
        assert(line.deep_view() =~= suggestion_line(g as int));
        push_line(&mut lines, line);
        assert(lines.deep_view() =~= start + Seq::new((g + 1) as nat, |i: int| suggestion_line(i)));
        g = g + 1;
    }
    let line = line_of(&["OPEN"]);
    assert(line.deep_view() =~= seq!["OPEN"@]);
    push_line(&mut lines, line);
    assert(lines.deep_view() =~= opening());
    lines
}

/// How a pretend contact answers a call from the ui: after how long (ms), and what happens.
pub open spec fn reaction_to(name: Seq<char>) -> (u64, EventView) {
    if name == "Mãe"@ {
        (RING_FOR_MS, EventView::PeerAnswered)
    } else if name == "Bruno"@ {
        (RING_FOR_MS, EventView::PeerEnded("Ocupado"@))
    } else {
        (NO_ANSWER_AFTER_MS, EventView::RingTimeout)
    }
}

/// How the pretend contacts react to a call: Mãe picks up, Bruno is busy, nobody else answers.
pub fn peer_reaction(name: &str) -> (reaction: (u64, Event))
    ensures
        (reaction.0, reaction.1@) == reaction_to(name@),
{
    let chars = crate::text::chars_of(name);
    let mae = crate::text::chars_of("Mãe");
    let bruno = crate::text::chars_of("Bruno");
    if crate::text::same_chars(chars.as_slice(), mae.as_slice()) {
        (RING_FOR_MS, Event::PeerAnswered)
    } else if crate::text::same_chars(chars.as_slice(), bruno.as_slice()) {
        (RING_FOR_MS, Event::PeerEnded("Ocupado".to_owned()))
    } else {
        (NO_ANSWER_AFTER_MS, Event::RingTimeout)
    }
}

} // verus!
