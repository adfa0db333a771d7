//! Notification texts and the queue of what is to be sent.
use vstd::prelude::*;
use vstd::string::*;
use vstd::utf8::*;
use crate::sorting;
use crate::text;

verus! {

/// The most bytes that one message may have.
pub const TELEGRAM_MESSAGE_LIMIT: usize = 4096;

/// How many leading characters fit into a count of bytes.
pub open spec fn fitting(value: Seq<char>, max_bytes: int) -> nat
    decreases value.len(),
{
    if value.len() == 0 {
        0
    } else {
        let width = encode_scalar(value[0] as u32).len();
        if width > max_bytes {
            0
        } else {
            1 + fitting(value.drop_first(), max_bytes - width)
        }
    }
}

/// The leading characters that fit into a count of bytes.
pub open spec fn truncated(value: Seq<char>, max_bytes: int) -> Seq<char> {
    value.take(fitting(value, max_bytes) as int)
}

/// Truncation keeps the longest beginning of a text that fits: what is kept has no more
/// bytes than allowed, and one character more would not fit.
pub proof fn truncation_is_longest_fit(value: Seq<char>, max_bytes: int)
    requires
        max_bytes >= 0,
    ensures
        fitting(value, max_bytes) <= value.len(),
        encode_utf8(truncated(value, max_bytes)).len() <= max_bytes,
        forall|k: int|
            fitting(value, max_bytes) < k <= value.len() ==> encode_utf8(
                #[trigger] value.take(k),
            ).len() > max_bytes,
    decreases value.len(),
{
    if value.len() == 0 {
        assert(truncated(value, max_bytes) =~= value);
    } else {
        let width = encode_scalar(value[0] as u32).len() as int;
        let rest = value.drop_first();
        if width > max_bytes {
            assert(truncated(value, max_bytes).len() == 0);
        } else {
            truncation_is_longest_fit(rest, max_bytes - width);
            let kept = truncated(value, max_bytes);
            assert(kept.drop_first() =~= truncated(rest, max_bytes - width));
        }
        assert forall|k: int| fitting(value, max_bytes) < k <= value.len() implies encode_utf8(
            #[trigger] value.take(k),
        ).len() > max_bytes by {
            assert(value.take(k).drop_first() =~= rest.take(k - 1));
            assert(value.take(k)[0] == value[0]);
            if width <= max_bytes {
                assert(encode_utf8(rest.take(k - 1)).len() > max_bytes - width);
            }
        }
    }
}

proof fn lemma_all_fit(value: Seq<char>, max_bytes: int)
    requires
        encode_utf8(value).len() <= max_bytes,
    ensures
        truncated(value, max_bytes) == value,
        fitting(value, max_bytes) == value.len(),
    decreases value.len(),
{
    if value.len() > 0 {
        lemma_all_fit(value.drop_first(), max_bytes - encode_scalar(value[0] as u32).len());
    }
    assert(value.take(value.len() as int) =~= value);
}

proof fn lemma_cut(value: Seq<char>, max_bytes: int, end: int)
    requires
        is_char_boundary(encode_utf8(value), end),
        0 <= end <= max_bytes <= encode_utf8(value).len(),
        forall|j: int|
            end < j <= max_bytes ==> !#[trigger] is_char_boundary(encode_utf8(value), j),
    ensures
        truncated(value, max_bytes) == decode_utf8(encode_utf8(value).subrange(0, end)),
    decreases value.len(),
{
    let bytes = encode_utf8(value);
    encode_utf8_valid_utf8(value);
    valid_utf8_split(bytes, end);
    let cut = bytes.subrange(0, end);
    if value.len() == 0 {
        assert(truncated(value, max_bytes) =~= decode_utf8(cut));
    } else {
        let rest = value.drop_first();
        let tail = encode_utf8(rest);
        encode_utf8_first_scalar(value);
        encode_utf8_valid_utf8(rest);
        let width = length_of_first_scalar(bytes);
        assert(pop_first_scalar(bytes) =~= tail);
        assert(width == encode_scalar(value[0] as u32).len());
        is_char_boundary_start_end_of_seq(tail);
        if width > max_bytes {
            if end > 0 {
                assert(is_char_boundary(tail, end - width));
                reveal_with_fuel(is_char_boundary, 2);
            }
            assert(truncated(value, max_bytes) =~= decode_utf8(cut));
        } else {
            assert(is_char_boundary(bytes, width));
            if end < width {
                assert(!is_char_boundary(bytes, width));
            }
            assert forall|j: int| end - width < j <= max_bytes - width implies !#[trigger] is_char_boundary(
                tail,
                j,
            ) by {
                assert(!is_char_boundary(bytes, j + width));
            }
            assert(is_char_boundary(tail, end - width));
            lemma_cut(rest, max_bytes - width, end - width);
            truncation_is_longest_fit(rest, max_bytes - width);
            assert(cut.len() > 0);
            assert(pop_first_scalar(cut) =~= tail.subrange(0, end - width));
            assert(decode_first_scalar(cut) == decode_first_scalar(bytes));
            char_u32_cast(value[0], decode_first_scalar(bytes));
            assert(truncated(value, max_bytes) =~= seq![value[0]] + truncated(
                rest,
                max_bytes - width,
            ));
        }
    }
}

/// Cuts a text to a count of bytes without splitting a character.
pub fn truncate(value: &str, max_bytes: usize) -> (r: String)
    ensures
        r@ == truncated(value@, max_bytes as int),
{
    let n = value.as_bytes().len();
    if n <= max_bytes {
        proof {
            lemma_all_fit(value@, max_bytes as int);
        }
        return value.to_owned();
    }
    let mut end = max_bytes;
    proof {
        encode_utf8_valid_utf8(value@);
        is_char_boundary_start_end_of_seq(encode_utf8(value@));
    }
    while !value.is_char_boundary(end)
        invariant
            end <= max_bytes < encode_utf8(value@).len(),
            is_char_boundary(encode_utf8(value@), 0),
            forall|j: int|
                end < j <= max_bytes ==> !#[trigger] is_char_boundary(encode_utf8(value@), j),
        decreases end,
    {
        end = end - 1;
    }
    let (kept, _) = value.split_at(end);
    proof {
        lemma_cut(value@, max_bytes as int, end as int);
        encode_utf8_decode_utf8(kept@);
    }
    kept.to_owned()
}

/// How often one symbol's entries were rejected for one reason.
#[derive(Debug)]
pub struct Rejection {
    pub symbol: String,
    pub reason: String,
    pub count: u64,
}

/// A rejection row by its contents.
#[verifier::ext_equal]
pub struct RejectionRow {
    pub symbol: Seq<char>,
    pub reason: Seq<char>,
    pub count: u64,
}

impl Rejection {
    pub open spec fn view(&self) -> RejectionRow {
        RejectionRow { symbol: self.symbol@, reason: self.reason@, count: self.count }
    }
}

/// The rows by their contents.
pub open spec fn rejection_rows(rows: Seq<Rejection>) -> Seq<RejectionRow> {
    rows.map_values(|r: Rejection| r@)
}

/// The first row of a symbol and a reason.
pub open spec fn is_row(rows: Seq<RejectionRow>, symbol: Seq<char>, reason: Seq<char>, i: int) -> bool {
    &&& 0 <= i < rows.len()
    &&& rows[i].symbol == symbol && rows[i].reason == reason
    &&& forall|j: int|
        0 <= j < i ==> !((#[trigger] rows[j]).symbol == symbol && rows[j].reason == reason)
}

/// The rows after one more rejection.
pub open spec fn with_rejection(
    rows: Seq<RejectionRow>,
    symbol: Seq<char>,
    reason: Seq<char>,
) -> Seq<RejectionRow> {
    if exists|i: int| is_row(rows, symbol, reason, i) {
        let i = choose|i: int| is_row(rows, symbol, reason, i);
        rows.update(i, RejectionRow { count: rows[i].count.wrapping_add(1), ..rows[i] })
    } else {
        rows.push(RejectionRow { symbol, reason, count: 1 })
    }
}

/// Messages that wait to be sent.
#[derive(Debug)]
pub struct Notifier {
    pub outbox: Vec<String>,
    pub rejections: Vec<Rejection>,
    pub notify_rejections: bool,
}

/// A notifier by its contents.
#[verifier::ext_equal]
pub struct NotifierView {
    pub outbox: Seq<Seq<char>>,
    pub rejections: Seq<RejectionRow>,
    pub notify_rejections: bool,
}

impl Notifier {
    pub open spec fn view(&self) -> NotifierView {
        NotifierView {
            outbox: sorting::texts(self.outbox@),
            rejections: rejection_rows(self.rejections@),
            notify_rejections: self.notify_rejections,
        }
    }

    pub fn new(notify_rejections: bool) -> (r: Notifier)
        ensures
            r@ == (NotifierView { outbox: Seq::empty(), rejections: Seq::empty(), notify_rejections }),
    {
        let r = Notifier { outbox: Vec::new(), rejections: Vec::new(), notify_rejections };
        assert(r@.outbox =~= Seq::empty());
        assert(r@.rejections =~= Seq::empty());
        r
    }

    /// Counts a rejection, if rejections are to be reported; symbol and reason are cut.
    pub fn reject(&mut self, symbol: &str, reason: &str)
        ensures
            final(self)@ == rejected(old(self)@, symbol@, reason@),
    {
        if !self.notify_rejections {
            return;
        }
        let name = truncate(symbol, 32);
        let cause = truncate(reason, 180);
        let ghost before = rejection_rows(self.rejections@);
        let n = self.rejections.len();
        let mut i: usize = 0;
        while i < n
            invariant
                n == self.rejections@.len(),
                i <= n,
                self.notify_rejections,
                name@ == truncated(symbol@, 32),
                cause@ == truncated(reason@, 180),
                *self == *old(self),
                before == rejection_rows(self.rejections@),
                forall|j: int|
                    0 <= j < i ==> !((#[trigger] before[j]).symbol == name@ && before[j].reason
                        == cause@),
            decreases n - i,
        {
            assert(before[i as int] == self.rejections@[i as int]@);
            let row = &self.rejections[i];
            if text::text_eq(row.symbol.as_str(), name.as_str()) && text::text_eq(
                row.reason.as_str(),
                cause.as_str(),
            ) {
                let count = row.count.wrapping_add(1);
                proof {
                    assert(is_row(before, name@, cause@, i as int));
                    let k = choose|k: int| is_row(before, name@, cause@, k);
                    assert(k == i) by {
                        if k < i {
                            assert(!(before[k].symbol == name@ && before[k].reason == cause@));
                        } else if i < k {
                            assert(!(before[i as int].symbol == name@ && before[i as int].reason
                                == cause@));
                        }
                    }
                }
                self.rejections.set(i, Rejection { symbol: name, reason: cause, count });
                assert(rejection_rows(self.rejections@) =~= with_rejection(
                    before,
                    name@,
                    cause@,
                ));
                return;
            }
            i = i + 1;
        }
        assert(!exists|k: int| is_row(before, name@, cause@, k)) by {
            if exists|k: int| is_row(before, name@, cause@, k) {
                let k = choose|k: int| is_row(before, name@, cause@, k);
                assert(before[k].symbol == name@ && before[k].reason == cause@);
            }
        }
        self.rejections.push(Rejection { symbol: name, reason: cause, count: 1 });
        assert(rejection_rows(self.rejections@) =~= with_rejection(before, name@, cause@));
    }
}

/// A notifier after one rejection.
pub open spec fn rejected(n: NotifierView, symbol: Seq<char>, reason: Seq<char>) -> NotifierView {
    if n.notify_rejections {
        NotifierView {
            rejections: with_rejection(
                n.rejections,
                truncated(symbol, 32),
                truncated(reason, 180),
            ),
            ..n
        }
    } else {
        n
    }
}

/// What an optional notifier holds.
pub open spec fn notifier_view(n: Option<Notifier>) -> Option<NotifierView> {
    match n {
        Some(n) => Some(n@),
        None => None,
    }
}

/// An optional notifier after one rejection.
pub open spec fn rejection_noted(
    n: Option<NotifierView>,
    symbol: Seq<char>,
    reason: Seq<char>,
) -> Option<NotifierView> {
    match n {
        Some(n) => Some(rejected(n, symbol, reason)),
        None => None,
    }
}

/// Counts a rejection for the next summary.
pub fn notify_rejection(notifier: &mut Option<Notifier>, symbol: &str, reason: &str)
    ensures
        notifier_view(*final(notifier)) == rejection_noted(
            notifier_view(*old(notifier)),
            symbol@,
            reason@,
        ),
{
    match notifier.take() {
        Some(mut n) => {
            n.reject(symbol, reason);
            *notifier = Some(n);
        },
        None => {},
    }
}

/// An optional notifier with one more message to send.
pub open spec fn message_queued(n: Option<NotifierView>, message: Seq<char>) -> Option<NotifierView> {
    match n {
        Some(n) => Some(NotifierView { outbox: n.outbox.push(message), ..n }),
        None => None,
    }
}

/// Queues a message, if there is a notifier.
pub fn send_immediate(notifier: &mut Option<Notifier>, text: String)
    ensures
        notifier_view(*final(notifier)) == message_queued(notifier_view(*old(notifier)), text@),
{
    match notifier.take() {
        Some(mut n) => {
            let ghost before = n@.outbox;
            n.outbox.push(text);
            assert(n@.outbox =~= before.push(text@));
            *notifier = Some(n);
        },
        None => {},
    }
}

} // verus!
