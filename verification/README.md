# zapzap

The logic of ZapZap, a lean WhatsApp desktop client for Brazil, written in Verus and proved
against its contracts.

- `src/` is the verified library. Each module states what its functions do as `requires` /
  `ensures` over spec functions and views:
  - `link`, `lines`: the tab-separated line protocol between the core, the engine and the window
    (what each line reads as, and what each kind of line does to the screen);
  - `call`, `presence`, `contacts`, `reactions`, `dates`, `demo`, `demo_loop`: the voice-call state
    machine, presence text, the address book, reaction counts, day chips, the demonstration script
    and what the demonstration core answers to each command and schedules for later;
  - `qr`: the pairing-code encoder (version 10, level L, byte mode): its Reed–Solomon codewords,
    every module of the symbol (function patterns, format and version information, the data laid
    out in the zigzag and masked), the choice of the mask with the least penalty, and GF(256) laws;
  - `pack`, `bake`: the run-length packing of glyph bitmaps and its round trip;
  - `thumb`: a decoded preview picture shrunk to fit 48 pixels a side, block averages in RGB565;
  - `chat*`, `field`, `items`, `screen`, `layout`: what the chat screen holds and how keys,
    lines and clicks change it;
  - `canvas`, `font`, `icons`, `view`: pixels, text and icon drawing, the notice and pairing
    screens, and hit testing;
  - `window`: what each window event does to the chat (a click: what lies under it, what that
    leads to and what it does; keys, pastes, right clicks, resizes, double and triple clicks, drags,
    hover, the wheel, the pointer's shape), what a wait that runs out does (the call's clock, the
    caret's blink) and how long to wait for the next event.
- `tests/` runs the library on concrete values.
- `app/` is the program around it: it reads the atlases and the core's lines and writes what the
  screen sends back; with `--demo` it runs the demonstration core on stdin and stdout.

Text positions inside the library are characters; the public caret, selection and match offsets
(`Field::cursor`, `Field::selection`, `Field::move_to`, `items::find_from`) are byte offsets into
the UTF-8 text.
