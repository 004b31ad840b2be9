//! Notifications, and the terminal sequences that show them.
use crate::text::chars_of;
use vstd::prelude::*;
use vstd::string::*;

verus! {

/// A notification to the user.
#[derive(Debug)]
pub struct Notification {
    pub title: String,
    pub body: String,
}

/// What a [`Notification`] stands for.
#[verifier::ext_equal]
pub struct NoteView {
    pub title: Seq<char>,
    pub body: Seq<char>,
}

impl View for Notification {
    type V = NoteView;

    open spec fn view(&self) -> NoteView {
        NoteView { title: self.title@, body: self.body@ }
    }
}

/// Whether `c` is a control character: one of U+0000 to U+001F and of U+007F to U+009F.
pub open spec fn is_control_char(c: char) -> bool {
    c as u32 <= 0x1f || 0x7f <= c as u32 <= 0x9f
}

/// The text of a notification on one line: title and body, without control characters.
pub open spec fn message_text(n: NoteView) -> Seq<char> {
    (n.title + seq![':', ' '] + n.body).filter(|c: char| !is_control_char(c))
}

/// The OSC 9 sequence that shows `message`: ESC, `]9;`, the message, BEL.
pub open spec fn osc9_sequence(message: Seq<char>) -> Seq<char> {
    seq!['\x1b', ']', '9', ';'] + message + seq!['\x07']
}

/// The message for an OSC 9 sequence. A title or body may hold BEL, ESC or another control
/// character, which would end the sequence early or start another; they are left out.
pub fn osc9_message(n: &Notification) -> (r: String)
    ensures
        r@ == message_text(n@),
{
    let mut line = n.title.clone();
    line.push(':');
    line.push(' ');
    line.append(n.body.as_str());
    let chars = chars_of(line.as_str());
    let mut out = String::new();
    let ghost shown = |c: char| !is_control_char(c);
    assert(chars@ =~= n@.title + seq![':', ' '] + n@.body);
    assert(chars@.take(0).filter(shown) =~= Seq::empty());
    for i in 0..chars.len()
        invariant
            shown == |c: char| !is_control_char(c),
            out@ == chars@.take(i as int).filter(shown),
    {
        let c = chars[i];
        let code: u32 = c as u32;
        if !(code <= 0x1f || (0x7f <= code && code <= 0x9f)) {
            out.push(c);
        }
        proof {
            assert(chars@.take(i + 1) =~= chars@.take(i as int).push(c));
            chars@.take(i as int).lemma_filter_push(c, shown);
        }
    }
    assert(chars@.take(chars@.len() as int) =~= chars@);
    out
}

/// The message of an OSC 9 sequence holds no control character, so the sequence holds exactly the
/// ESC that starts it and the BEL that ends it.
pub proof fn message_cannot_end_sequence(n: NoteView)
    ensures
        forall|i: int|
            0 <= i < message_text(n).len() ==> !is_control_char(#[trigger] message_text(n)[i]),
        forall|i: int|
            0 < i < osc9_sequence(message_text(n)).len() - 1 ==> !is_control_char(
                #[trigger] osc9_sequence(message_text(n))[i],
            ),
{
    let line = n.title + seq![':', ' '] + n.body;
    let shown = |c: char| !is_control_char(c);
    assert forall|i: int| 0 <= i < message_text(n).len() implies !is_control_char(
        #[trigger] message_text(n)[i],
    ) by {
        line.lemma_filter_pred(shown, i);
        assert(shown(message_text(n)[i]));
    }
    let sequence = osc9_sequence(message_text(n));
    assert forall|i: int| 0 < i < sequence.len() - 1 implies !is_control_char(
        #[trigger] sequence[i],
    ) by {
        if i >= 4 {
            assert(sequence[i] == message_text(n)[i - 4]);
        }
    }
}

/// A way to show notifications.
pub trait Notifier: Send {
    /// What is written to the terminal to show `n`.
    spec fn emitted(&self, n: NoteView) -> Seq<char>;

    /// What to write to the terminal to show `n`.
    fn notify(&self, n: &Notification) -> (r: String)
        ensures
            r@ == self.emitted(n@),
    ;
}

/// Shows notifications by the OSC 9 escape sequence, which WezTerm, Windows Terminal and others
/// understand.
pub struct OscNotifier;

impl Notifier for OscNotifier {
    open spec fn emitted(&self, n: NoteView) -> Seq<char> {
        osc9_sequence(message_text(n))
    }

    fn notify(&self, n: &Notification) -> (r: String) {
        let mut out = String::new();
        out.push('\x1b');
        out.push(']');
        out.push('9');
        out.push(';');
        out.append(osc9_message(n).as_str());
        out.push('\x07');
        assert(out@ =~= osc9_sequence(message_text(n@)));
        out
    }
}

/// Shows nothing.
pub struct NullNotifier;

impl Notifier for NullNotifier {
    open spec fn emitted(&self, n: NoteView) -> Seq<char> {
        Seq::empty()
    }

    fn notify(&self, n: &Notification) -> (r: String) {
        String::new()
    }
}

/// One of the notifiers.
pub enum AnyNotifier {
    Osc(OscNotifier),
    Null(NullNotifier),
}

impl Notifier for AnyNotifier {
    open spec fn emitted(&self, n: NoteView) -> Seq<char> {
        match self {
            AnyNotifier::Osc(notifier) => notifier.emitted(n),
            AnyNotifier::Null(notifier) => notifier.emitted(n),
        }
    }

    fn notify(&self, n: &Notification) -> (r: String) {
        match self {
            AnyNotifier::Osc(notifier) => notifier.notify(n),
            AnyNotifier::Null(notifier) => notifier.notify(n),
        }
    }
}

/// The notifier to use: the OSC 9 one where notifications are on, else the silent one.
pub fn build_notifier(enabled: bool) -> (r: AnyNotifier)
    ensures
        r is Osc <==> enabled,
        forall|n: NoteView| #[trigger]
            r.emitted(n) == if enabled {
                osc9_sequence(message_text(n))
            } else {
                Seq::<char>::empty()
            },
{
    if enabled {
        AnyNotifier::Osc(OscNotifier)
    } else {
        AnyNotifier::Null(NullNotifier)
    }
}

/// A control character in the title or the body changes nothing in the message, wherever it stands.
pub proof fn control_characters_leave_no_trace(
    title: Seq<char>,
    more_title: Seq<char>,
    body: Seq<char>,
    more_body: Seq<char>,
    c: char,
)
    requires
        c as int <= 31 || 127 <= c as int <= 159,
    ensures
        message_text(NoteView { title: title + seq![c] + more_title, body: body + more_body })
            == message_text(NoteView { title: title + more_title, body: body + more_body }),
        message_text(NoteView { title: title + more_title, body: body + seq![c] + more_body })
            == message_text(NoteView { title: title + more_title, body: body + more_body }),
{
    let shown = |x: char| !is_control_char(x);
    let colon = seq![':', ' '];
    let none = Seq::<char>::empty();
    assert(none.filter(shown) =~= none);
    none.lemma_filter_push(c, shown);
    assert(none.push(c) =~= seq![c]);
    let t = title + more_title;
    let b = body + more_body;
    let whole = t + colon + b;
    let rest = more_title + colon + b;
    assert(title + seq![c] + more_title + colon + b =~= title + (seq![c] + rest));
    assert(whole =~= title + rest);
    Seq::filter_distributes_over_add(title, seq![c] + rest, shown);
    Seq::filter_distributes_over_add(seq![c], rest, shown);
    Seq::filter_distributes_over_add(title, rest, shown);
    assert(seq![c].filter(shown) + rest.filter(shown) =~= rest.filter(shown));
    let start = t + colon + body;
    assert(t + colon + (body + seq![c] + more_body) =~= start + (seq![c] + more_body));
    assert(whole =~= start + more_body);
    Seq::filter_distributes_over_add(start, seq![c] + more_body, shown);
    Seq::filter_distributes_over_add(seq![c], more_body, shown);
    Seq::filter_distributes_over_add(start, more_body, shown);
    assert(seq![c].filter(shown) + more_body.filter(shown) =~= more_body.filter(shown));
}

/// Without control characters the message is the title, a colon, a space and the body; and it is
/// shown between ESC, `]9;` and BEL.
pub proof fn plain_texts_are_shown_as_they_are(n: NoteView)
    requires
        forall|i: int|
            0 <= i < n.title.len() ==> !((#[trigger] n.title[i]) as int <= 31 || 127
                <= n.title[i] as int <= 159),
        forall|i: int|
            0 <= i < n.body.len() ==> !((#[trigger] n.body[i]) as int <= 31 || 127
                <= n.body[i] as int <= 159),
    ensures
        message_text(n) == n.title + seq![':', ' '] + n.body,
        osc9_sequence(message_text(n)) == seq!['\x1b', ']', '9', ';'] + n.title + seq![':', ' ']
            + n.body + seq!['\x07'],
{
    let line = n.title + seq![':', ' '] + n.body;
    assert forall|i: int| 0 <= i < line.len() implies !is_control_char(#[trigger] line[i]) by {
        lemma_control(line[i]);
        if i < n.title.len() {
            assert(line[i] == n.title[i]);
        } else if i >= n.title.len() + 2 {
            assert(line[i] == n.body[i - n.title.len() - 2]);
        }
    }
    lemma_all_shown(line);
    lemma_framed(n.title, n.body);
}

proof fn lemma_framed(title: Seq<char>, body: Seq<char>)
    ensures
        osc9_sequence(title + seq![':', ' '] + body) == seq!['\x1b', ']', '9', ';'] + title
            + seq![':', ' '] + body + seq!['\x07'],
{
    assert(osc9_sequence(title + seq![':', ' '] + body) =~= seq!['\x1b', ']', '9', ';'] + title
        + seq![':', ' '] + body + seq!['\x07']);
}

proof fn lemma_control(c: char)
    ensures
        is_control_char(c) <==> c as int <= 31 || 127 <= c as int <= 159,
{
}

proof fn lemma_all_shown(line: Seq<char>)
    requires
        forall|i: int| 0 <= i < line.len() ==> !is_control_char(#[trigger] line[i]),
    ensures
        line.filter(|c: char| !is_control_char(c)) == line,
    decreases line.len(),
{
    let shown = |c: char| !is_control_char(c);
    if line.len() == 0 {
        assert(line.filter(shown) =~= line);
    } else {
        let rest = line.drop_last();
        assert forall|i: int| 0 <= i < rest.len() implies !is_control_char(#[trigger] rest[i]) by {
            assert(rest[i] == line[i]);
        }
        lemma_all_shown(rest);
        rest.lemma_filter_push(line.last(), shown);
        assert(line =~= rest.push(line.last()));
    }
}

/// A notification is shown by an escape character, a bracket, the number of the sequence, the message
/// and a bell; where notifications are off nothing is written.
pub proof fn notifiers_write_a_sequence_or_nothing(notifier: AnyNotifier, n: NoteView)
    ensures
        notifier is Null ==> notifier.emitted(n).len() == 0,
        notifier is Osc ==> notifier.emitted(n) == seq!['\x1b', ']', '9', ';'] + message_text(n)
            + seq!['\x07'],
{
    assert(osc9_sequence(message_text(n)) =~= seq!['\x1b', ']', '9', ';'] + message_text(n)
        + seq!['\x07']);
}

} // verus!
