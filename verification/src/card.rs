//! Cards, and how they are written in a text file: on one line with a
//! colon between prompt and response, or on several lines that a separator
//! ends. A marker makes a line a card, and words that start with `#` are
//! its tags.

use vstd::prelude::*;
use crate::text::{
    chars_of, has_char, has_text, holds, holds_text, is_last_index_of, join, joined, last_index_of,
    lines_of, part_of, parts_of, split_lines, string_of, texts, trim_bounds, trimmed,
    without_spaces,
};

verus! {

/// The identity of a card: a 256-bit hash of its text.
#[derive(Debug, Clone, Copy, PartialEq, Eq, Hash)]
pub struct CardId {
    pub bytes: [u8; 32],
}

impl View for CardId {
    type V = Seq<u8>;

    open spec fn view(&self) -> Seq<u8> {
        self.bytes@
    }
}

impl CardId {
    /// The id with the bytes `bytes`.
    pub fn from_bytes(bytes: [u8; 32]) -> (id: CardId)
        ensures
            id@ == bytes@,
    {
        CardId { bytes }
    }

    /// Whether two ids are the same hash.
    pub fn same(&self, other: &CardId) -> (r: bool)
        ensures
            r == (self@ == other@),
    {
        let mut i: usize = 0;
        while i < 32
            invariant
                i <= 32,
                forall|j: int| 0 <= j < i ==> self.bytes[j] == other.bytes[j],
            decreases 32 - i,
        {
            if self.bytes[i] != other.bytes[i] {
                return false;
            }
            i = i + 1;
        }
        assert(self@ =~= other@);
        true
    }
}

/// The hexadecimal digit of a number below 16.
pub open spec fn hex_digit(n: int) -> char {
    if n == 0 {
        '0'
    } else if n == 1 {
        '1'
    } else if n == 2 {
        '2'
    } else if n == 3 {
        '3'
    } else if n == 4 {
        '4'
    } else if n == 5 {
        '5'
    } else if n == 6 {
        '6'
    } else if n == 7 {
        '7'
    } else if n == 8 {
        '8'
    } else if n == 9 {
        '9'
    } else if n == 10 {
        'a'
    } else if n == 11 {
        'b'
    } else if n == 12 {
        'c'
    } else if n == 13 {
        'd'
    } else if n == 14 {
        'e'
    } else {
        'f'
    }
}

/// Bytes in hexadecimal: two digits for each, the higher first.
pub open spec fn hex_of(bytes: Seq<u8>) -> Seq<char>
    decreases bytes.len(),
{
    if bytes.len() == 0 {
        Seq::empty()
    } else {
        hex_of(bytes.drop_last()) + seq![
            hex_digit(bytes.last() as int / 16),
            hex_digit(bytes.last() as int % 16),
        ]
    }
}

/// Hexadecimal text has two digits for each byte.
pub proof fn hex_has_two_digits_a_byte(bytes: Seq<u8>)
    ensures
        hex_of(bytes).len() == 2 * bytes.len(),
    decreases bytes.len(),
{
    if bytes.len() > 0 {
        hex_has_two_digits_a_byte(bytes.drop_last());
    }
}

fn hex_text(n: u8) -> (digit: &'static str)
    requires
        n < 16,
    ensures
        digit@ == seq![hex_digit(n as int)],
{
    proof {
        reveal_strlit("0");
        reveal_strlit("1");
        reveal_strlit("2");
        reveal_strlit("3");
        reveal_strlit("4");
        reveal_strlit("5");
        reveal_strlit("6");
        reveal_strlit("7");
        reveal_strlit("8");
        reveal_strlit("9");
        reveal_strlit("a");
        reveal_strlit("b");
        reveal_strlit("c");
        reveal_strlit("d");
        reveal_strlit("e");
        reveal_strlit("f");
    }
    let digit = if n == 0 {
        "0"
    } else if n == 1 {
        "1"
    } else if n == 2 {
        "2"
    } else if n == 3 {
        "3"
    } else if n == 4 {
        "4"
    } else if n == 5 {
        "5"
    } else if n == 6 {
        "6"
    } else if n == 7 {
        "7"
    } else if n == 8 {
        "8"
    } else if n == 9 {
        "9"
    } else if n == 10 {
        "a"
    } else if n == 11 {
        "b"
    } else if n == 12 {
        "c"
    } else if n == 13 {
        "d"
    } else if n == 14 {
        "e"
    } else {
        "f"
    };
    assert(digit@ =~= seq![hex_digit(n as int)]);
    digit
}

impl CardId {
    /// The id in hexadecimal, 64 digits.
    pub fn to_hex(&self) -> (text: String)
        ensures
            text@ == hex_of(self@),
            text@.len() == 64,
    {
        let mut text = String::new();
        let mut i: usize = 0;
        while i < 32
            invariant
                i <= 32,
                text@ == hex_of(self@.take(i as int)),
            decreases 32 - i,
        {
            let byte = self.bytes[i];
            proof {
                assert(self@.take(i + 1).drop_last() =~= self@.take(i as int));
                assert(self@.take(i + 1).last() == byte);
            }
            text.append(hex_text(byte / 16));
            text.append(hex_text(byte % 16));
            i = i + 1;
        }
        proof {
            assert(self@.take(32) =~= self@);
            hex_has_two_digits_a_byte(self@);
        }
        text
    }
}

/// A flashcard as it was found in a file.
#[derive(Debug, Clone, PartialEq, Eq)]
pub struct Card {
    pub id: CardId,
    pub file: String,
    pub line: u64,
    pub prompt: String,
    pub response: Vec<String>,
    pub tags: Vec<String>,
}

/// A card as a mathematical value; its tags form a set.
pub struct CardView {
    pub id: Seq<u8>,
    pub file: Seq<char>,
    pub line: u64,
    pub prompt: Seq<char>,
    pub response: Seq<Seq<char>>,
    pub tags: Set<Seq<char>>,
}

impl View for Card {
    type V = CardView;

    open spec fn view(&self) -> CardView {
        CardView {
            id: self.id@,
            file: self.file@,
            line: self.line,
            prompt: self.prompt@,
            response: texts(self.response@),
            tags: texts(self.tags@).to_set(),
        }
    }
}

/// A compiled pattern of the `regex` crate.
#[verifier::external_type_specification]
#[verifier::external_body]
pub struct ExRegex(regex::Regex);

/// The text from which `regex::Regex::new` compiled `pattern`, as
/// `regex::Regex::as_str` gives it back.
pub uninterp spec fn pattern_text(pattern: regex::Regex) -> Seq<char>;

/// The successive matches in `haystack` of the pattern that
/// `regex::Regex::new` compiles from the text `pattern`, from left to right
/// and without overlap.
pub uninterp spec fn pattern_matches(pattern: Seq<char>, haystack: Seq<char>) -> Seq<Seq<char>>;

/// The text of the pattern for tags, `(#[\w-]+)*`.
pub open spec fn tag_pattern_text() -> Seq<char> {
    "(#[\\w-]+)*"@
}

/// The successive matches of the pattern for tags in `line`. A match is a
/// run of words that each start with `#`, with nothing between them; where
/// no such run starts, the match is empty.
pub open spec fn tag_matches(line: Seq<char>) -> Seq<Seq<char>> {
    pattern_matches(tag_pattern_text(), line)
}

/// Compiles the pattern `(#[\w-]+)*` with `regex::Regex::new`. The pattern
/// is a constant that compiles. The claim is that the compiled pattern
/// remembers its text.
#[verifier::external_body]
fn tag_pattern() -> (pattern: regex::Regex)
    ensures
        pattern_text(pattern) == tag_pattern_text(),
{
    regex::Regex::new("(#[\\w-]+)*").unwrap()
}

/// Calls `regex::Regex::find_iter` on `haystack` and hands out the text of
/// each match. The claim is that the matches of a pattern that
/// `Regex::new` compiled depend on the text of the pattern and on the
/// haystack alone. No pattern is compiled in any other way here.
#[verifier::external_body]
fn find_matches(pattern: &regex::Regex, haystack: &str) -> (matches: Vec<String>)
    ensures
        texts(matches@) == pattern_matches(pattern_text(*pattern), haystack@),
{
    pattern.find_iter(haystack).map(|m| m.as_str().to_string()).collect()
}

/// The tag that a match stands for: what follows its first character, the
/// `#`. A match of one character or none stands for nothing, and neither
/// does the marker `#flashcard`, which every card has.
pub open spec fn tag_in(found: Seq<char>) -> Option<Seq<char>> {
    if found.len() > 1 && found.drop_first() != "flashcard"@ {
        Some(found.drop_first())
    } else {
        None
    }
}

/// The tag of the match at position `i`.
pub open spec fn tag_at(matches: Seq<Seq<char>>, i: int) -> Option<Seq<char>> {
    tag_in(matches[i])
}

/// The tags that a list of matches stands for.
pub open spec fn tags_of(matches: Seq<Seq<char>>) -> Set<Seq<char>> {
    Set::new(
        |t: Seq<char>| exists|i: int| 0 <= i < matches.len() && #[trigger] tag_at(matches, i) == Some(t),
    )
}

proof fn lemma_tags_of_push(matches: Seq<Seq<char>>, found: Seq<char>)
    ensures
        tags_of(matches.push(found)) == match tag_in(found) {
            Some(t) => tags_of(matches).insert(t),
            None => tags_of(matches),
        },
{
    let more = matches.push(found);
    let goal = match tag_in(found) {
        Some(t) => tags_of(matches).insert(t),
        None => tags_of(matches),
    };
    assert forall|t: Seq<char>| tags_of(more).contains(t) <==> goal.contains(t) by {
        if tags_of(more).contains(t) {
            let i = choose|i: int| 0 <= i < more.len() && #[trigger] tag_at(more, i) == Some(t);
            if i < matches.len() {
                assert(tag_at(matches, i) == Some(t));
            }
        }
        if tags_of(matches).contains(t) {
            let i = choose|i: int|
                0 <= i < matches.len() && #[trigger] tag_at(matches, i) == Some(t);
            assert(tag_at(more, i) == Some(t));
        }
        if tag_in(found) == Some(t) {
            assert(tag_at(more, matches.len() as int) == Some(t));
        }
    }
    assert(tags_of(more) =~= goal);
}

/// The tags that `matches` stand for, each once.
pub fn tags_from_matches(matches: &Vec<String>) -> (tags: Vec<String>)
    ensures
        texts(tags@).to_set() == tags_of(texts(matches@)),
        texts(tags@).no_duplicates(),
{
    let mut tags: Vec<String> = Vec::new();
    let marker = String::from_str("flashcard");
    let ghost all = texts(matches@);
    proof {
        assert(texts(tags@).to_set() =~= tags_of(all.take(0)));
    }
    let mut k: usize = 0;
    while k < matches.len()
        invariant
            k <= matches.len(),
            all == texts(matches@),
            marker@ == "flashcard"@,
            texts(tags@).to_set() == tags_of(all.take(k as int)),
            texts(tags@).no_duplicates(),
        decreases matches.len() - k,
    {
        proof {
            assert(all.take(k + 1) =~= all.take(k as int).push(all[k as int]));
            lemma_tags_of_push(all.take(k as int), all[k as int]);
        }
        let found = matches[k].as_str();
        let n = found.unicode_len();
        if n > 1 {
            let tag = found.substring_char(1, n).to_owned();
            assert(tag@ =~= all[k as int].drop_first());
            if !(tag == marker) && !has_text(&tags, &tag) {
                let ghost before = texts(tags@);
                tags.push(tag);
                assert(texts(tags@) =~= before.push(tag@));
                assert(before.push(tag@).to_set() =~= before.to_set().insert(tag@)) by {
                    assert forall|t: Seq<char>|
                        before.push(tag@).contains(t) <==> (before.contains(t) || t
                            == tag@) by {
                        if before.contains(t) {
                            let j = choose|j: int| 0 <= j < before.len() && before[j] == t;
                            assert(before.push(tag@)[j] == t);
                        }
                        if t == tag@ {
                            assert(before.push(tag@)[before.len() as int] == t);
                        }
                    }
                }
            } else {
                proof {
                    if tag@ != marker@ {
                        assert(texts(tags@).to_set().contains(tag@));
                        assert(tags_of(all.take(k as int)).insert(tag@) =~= tags_of(
                            all.take(k as int),
                        ));
                    }
                }
            }
        }
        k = k + 1;
    }
    assert(all.take(all.len() as int) =~= all);
    tags
}

/// The tags of a line, found with the compiled pattern for tags.
fn parse_tags_with(pattern: &regex::Regex, line: &str) -> (tags: Vec<String>)
    requires
        pattern_text(*pattern) == tag_pattern_text(),
    ensures
        texts(tags@).to_set() == tags_of(tag_matches(line@)),
        texts(tags@).no_duplicates(),
{
    let matches = find_matches(pattern, line);
    tags_from_matches(&matches)
}

/// The tags of a line: the words that follow a `#`, without the marker
/// `#flashcard`, each once.
pub fn parse_tags(line: &str) -> (tags: Vec<String>)
    ensures
        texts(tags@).to_set() == tags_of(tag_matches(line@)),
        texts(tags@).no_duplicates(),
{
    let pattern = tag_pattern();
    parse_tags_with(&pattern, line)
}

/// Whether `c` starts the part of a line that holds its tags: a `#` or the
/// brain sign.
pub open spec fn is_marker(c: char) -> bool {
    c == '#' || c == '\u{1F9E0}'
}

/// The part of `s` before its first marker; all of `s` where it has none.
pub open spec fn text_before_marker(s: Seq<char>) -> Seq<char>
    decreases s.len(),
{
    if s.len() == 0 || is_marker(s.first()) {
        Seq::empty()
    } else {
        seq![s.first()] + text_before_marker(s.drop_first())
    }
}

/// A line without its tags: what stands before the first marker, without
/// the white space around it.
pub open spec fn stripped(line: Seq<char>) -> Seq<char> {
    trimmed(text_before_marker(line))
}

proof fn lemma_text_before_marker(s: Seq<char>, n: int)
    requires
        0 <= n <= s.len(),
        forall|i: int| 0 <= i < n ==> !is_marker(#[trigger] s[i]),
        n == s.len() || is_marker(s[n]),
    ensures
        text_before_marker(s) == s.take(n),
    decreases n,
{
    if n == 0 {
        assert(s.take(0) =~= Seq::<char>::empty());
    } else {
        let rest = s.drop_first();
        assert(!is_marker(s[0]));
        assert forall|i: int| 0 <= i < n - 1 implies !is_marker(#[trigger] rest[i]) by {
            assert(rest[i] == s[i + 1]);
        }
        lemma_text_before_marker(rest, n - 1);
        assert(s.take(n) =~= seq![s.first()] + rest.take(n - 1));
    }
}

/// Where `text` without its tags starts and stops.
pub fn strip_bounds(text: &Vec<char>) -> (bounds: (usize, usize))
    ensures
        bounds.0 <= bounds.1 <= text.len(),
        text@.subrange(bounds.0 as int, bounds.1 as int) == stripped(text@),
{
    let mut cut: usize = 0;
    while cut < text.len() && !(text[cut] == '#' || text[cut] == '\u{1F9E0}')
        invariant
            cut <= text.len(),
            forall|i: int| 0 <= i < cut ==> !is_marker(#[trigger] text@[i]),
        decreases text.len() - cut,
    {
        cut = cut + 1;
    }
    proof {
        lemma_text_before_marker(text@, cut as int);
        assert(text@.subrange(0, cut as int) =~= text@.take(cut as int));
    }
    trim_bounds(text, 0, cut)
}

/// A line without its tags: what stands before the first `#` or brain
/// sign, without the white space around it.
pub fn strip_tags(line: &str) -> (text: String)
    ensures
        text@ == stripped(line@),
{
    let chars = chars_of(line);
    let (a, b) = strip_bounds(&chars);
    string_of(&chars, a, b)
}

/// The mathematical value of each card of a list, in order.
pub open spec fn card_views(v: Seq<Card>) -> Seq<CardView> {
    v.map_values(|c: Card| c@)
}

/// The BLAKE3 hash of `text` in UTF-8, 32 bytes.
pub uninterp spec fn content_hash(text: Seq<char>) -> Seq<u8>;

/// Calls `blake3::hash` on the bytes of `text`. The claim is that the hash
/// depends on the text alone.
#[verifier::external_body]
fn hash_text(text: &str) -> (id: CardId)
    ensures
        id@ == content_hash(text@),
{
    CardId { bytes: *blake3::hash(text.as_bytes()).as_bytes() }
}

/// A card that spans several lines, while it is being read.
struct Draft {
    lines: Vec<String>,
    tags: Vec<String>,
    prompt: Option<String>,
    first_line: Option<u64>,
}

/// A card that spans several lines, while it is being read: its prompt and
/// the lines of its response so far, its tags, and where it started.
pub struct DraftView {
    pub lines: Seq<Seq<char>>,
    pub tags: Set<Seq<char>>,
    pub prompt: Option<Seq<char>>,
    pub first_line: Option<u64>,
}

impl View for Draft {
    type V = DraftView;

    closed spec fn view(&self) -> DraftView {
        DraftView {
            lines: texts(self.lines@),
            tags: texts(self.tags@).to_set(),
            prompt: match self.prompt {
                Some(p) => Some(p@),
                None => None,
            },
            first_line: self.first_line,
        }
    }
}

/// No card is being read.
pub open spec fn no_draft() -> DraftView {
    DraftView { lines: Seq::empty(), tags: Set::empty(), prompt: None, first_line: None }
}

impl Draft {
    fn new() -> (draft: Draft)
        ensures
            draft@ == no_draft(),
    {
        let draft = Draft { lines: Vec::new(), tags: Vec::new(), prompt: None, first_line: None };
        assert(texts(draft.lines@) =~= Seq::<Seq<char>>::empty());
        assert(texts(draft.tags@).to_set() =~= Set::<Seq<char>>::empty());
        draft
    }
}

/// Whether a line belongs to a card by its marker: it holds `#flashcard`
/// or the brain sign.
pub open spec fn is_card_line(line: Seq<char>) -> bool {
    holds(line, "#flashcard"@) || line.contains('\u{1F9E0}')
}

/// Whether a line ends a card that spans several lines: apart from white
/// space it is three dashes or three asterisks.
pub open spec fn is_separator(line: Seq<char>) -> bool {
    without_spaces(line) == "---"@ || without_spaces(line) == "***"@
}

/// The position of the last colon of `line`.
pub open spec fn last_colon(line: Seq<char>) -> int {
    choose|i: int| is_last_index_of(line, ':', i)
}

/// The card that a marked line with a colon holds by itself: the prompt
/// stands before the last colon, the response and the tags behind it. A
/// line without a prompt holds no card.
pub open spec fn one_line_card(file: Seq<char>, number: u64, line: Seq<char>) -> Option<CardView> {
    let colon = last_colon(line);
    let prompt = trimmed(line.subrange(0, colon));
    let answer = line.subrange(colon + 1, line.len() as int);
    if prompt.len() == 0 {
        None
    } else {
        Some(
            CardView {
                id: content_hash(stripped(line)),
                file,
                line: number,
                prompt,
                response: seq![stripped(answer)],
                tags: tags_of(tag_matches(answer)),
            },
        )
    }
}

/// The card that a draft holds once its end is read. Its first line is
/// the prompt, the others are the response.
pub open spec fn finished_card(file: Seq<char>, draft: DraftView) -> CardView {
    CardView {
        id: content_hash(joined(draft.lines, "\n"@)),
        file,
        line: draft.first_line.unwrap(),
        prompt: draft.prompt.unwrap(),
        response: draft.lines.drop_first(),
        tags: draft.tags,
    }
}

/// What one line does to the draft, and the card that it completes, if
/// any.
///
/// A marked line with a colon is a card by itself and ends any draft. A
/// line marked `#flashcard` without a colon starts a card of several lines,
/// or goes on with the one that is being read. A separator ends the draft
/// and gives its card. Any other line is one more line of the draft, where
/// there is one.
pub open spec fn line_step(file: Seq<char>, number: u64, line: Seq<char>, draft: DraftView) -> (
    DraftView,
    Option<CardView>,
) {
    if is_card_line(line) {
        if line.contains(':') {
            match one_line_card(file, number, line) {
                Some(card) => (no_draft(), Some(card)),
                None => (draft, None),
            }
        } else if holds(line, "#flashcard"@) && stripped(line).len() > 0 {
            (
                DraftView {
                    lines: draft.lines.push(stripped(line)),
                    tags: tags_of(tag_matches(line)),
                    prompt: Some(stripped(line)),
                    first_line: Some(number),
                },
                None,
            )
        } else {
            (draft, None)
        }
    } else if is_separator(line) && draft.lines.len() > 0 {
        if draft.prompt is Some && draft.first_line is Some {
            (no_draft(), Some(finished_card(file, draft)))
        } else {
            (draft, None)
        }
    } else if draft.lines.len() > 0 {
        (DraftView { lines: draft.lines.push(line), ..draft }, None)
    } else {
        (draft, None)
    }
}

/// The draft and the cards after the lines `lines` of the file `file`.
pub open spec fn cards_of_lines(file: Seq<char>, lines: Seq<Seq<char>>) -> (
    DraftView,
    Seq<CardView>,
)
    decreases lines.len(),
{
    if lines.len() == 0 {
        (no_draft(), Seq::empty())
    } else {
        let before = cards_of_lines(file, lines.drop_last());
        let step = line_step(file, (lines.len() - 1) as u64, lines.last(), before.0);
        (
            step.0,
            match step.1 {
                Some(card) => before.1.push(card),
                None => before.1,
            },
        )
    }
}

/// The cards of a file with the content `contents`, in the order in which
/// they end. A file that holds `@carddown-ignore` has none. A card of
/// several lines that no separator ends is no card.
pub open spec fn cards_in(file: Seq<char>, contents: Seq<char>) -> Seq<CardView> {
    if holds(contents, "@carddown-ignore"@) {
        Seq::empty()
    } else {
        cards_of_lines(file, lines_of(contents)).1
    }
}

fn same_chars(a: &Vec<char>, b: &Vec<char>) -> (r: bool)
    ensures
        r == (a@ == b@),
{
    if a.len() != b.len() {
        return false;
    }
    let mut i: usize = 0;
    while i < a.len()
        invariant
            i <= a.len(),
            a.len() == b.len(),
            forall|j: int| 0 <= j < i ==> a[j] == b[j],
        decreases a.len() - i,
    {
        if a[i] != b[i] {
            return false;
        }
        i = i + 1;
    }
    assert(a@ =~= b@);
    true
}

/// Whether `line` ends a card that spans several lines.
pub fn ends_card(line: &Vec<char>) -> (r: bool)
    ensures
        r == is_separator(line@),
{
    let mut core: Vec<char> = Vec::new();
    let mut i: usize = 0;
    proof {
        reveal(Seq::filter);
        assert(line@.take(0) =~= Seq::<char>::empty());
    }
    while i < line.len()
        invariant
            i <= line.len(),
            core@ == without_spaces(line@.take(i as int)),
        decreases line.len() - i,
    {
        proof {
            reveal(Seq::filter);
            assert(line@.take(i + 1).drop_last() =~= line@.take(i as int));
            assert(line@.take(i + 1).last() == line[i as int]);
        }
        if !line[i].is_whitespace() {
            core.push(line[i]);
        }
        i = i + 1;
    }
    assert(line@.take(line.len() as int) =~= line@);
    let dashes = chars_of("---");
    let stars = chars_of("***");
    same_chars(&core, &dashes) || same_chars(&core, &stars)
}

proof fn lemma_last_colon(line: Seq<char>, i: int)
    requires
        is_last_index_of(line, ':', i),
    ensures
        last_colon(line) == i,
        line.contains(':'),
{
    let j = last_colon(line);
    assert(is_last_index_of(line, ':', j));
    if i < j {
        assert(line[j] != ':');
    } else if j < i {
        assert(line[i] != ':');
    }
}

/// Reads one line of the file `file`.
fn read_line(
    pattern: &regex::Regex,
    file: &str,
    number: u64,
    line: &Vec<char>,
    draft: &mut Draft,
) -> (card: Option<Card>)
    requires
        pattern_text(*pattern) == tag_pattern_text(),
    ensures
        final(draft)@ == line_step(file@, number, line@, old(draft)@).0,
        match card {
            Some(c) => line_step(file@, number, line@, old(draft)@).1 == Some(c@),
            None => line_step(file@, number, line@, old(draft)@).1 is None,
        },
{
    let marker = chars_of("#flashcard");
    let marked = holds_text(line, &marker);
    if marked || has_char(line, '\u{1F9E0}') {
        match last_index_of(line, ':') {
            Some(colon) => {
                proof {
                    lemma_last_colon(line@, colon as int);
                }
                let (a, b) = trim_bounds(line, 0, colon);
                if a == b {
                    None
                } else {
                    let prompt = string_of(line, a, b);
                    let answer = part_of(line, colon + 1, line.len());
                    let answer_text = string_of(line, colon + 1, line.len());
                    let tags = parse_tags_with(pattern, answer_text.as_str());
                    let (sa, sb) = strip_bounds(line);
                    let whole = string_of(line, sa, sb);
                    let (ra, rb) = strip_bounds(&answer);
                    let mut response: Vec<String> = Vec::new();
                    response.push(string_of(&answer, ra, rb));
                    assert(texts(response@) =~= seq![stripped(answer@)]);
                    let mut fresh = Draft::new();
                    std::mem::swap(draft, &mut fresh);
                    Some(
                        Card {
                            id: hash_text(whole.as_str()),
                            file: file.to_owned(),
                            line: number,
                            prompt,
                            response,
                            tags,
                        },
                    )
                }
            },
            None => {
                if marked {
                    let (a, b) = strip_bounds(line);
                    if a < b {
                        let prompt = string_of(line, a, b);
                        let text = string_of(line, 0, line.len());
                        assert(line@.subrange(0, line.len() as int) =~= line@);
                        let ghost before = texts(draft.lines@);
                        draft.tags = parse_tags_with(pattern, text.as_str());
                        draft.lines.push(prompt.clone());
                        assert(texts(draft.lines@) =~= before.push(prompt@));
                        draft.prompt = Some(prompt);
                        draft.first_line = Some(number);
                    }
                }
                None
            },
        }
    } else if ends_card(line) && draft.lines.len() > 0 {
        if draft.prompt.is_some() && draft.first_line.is_some() {
            let mut done = Draft::new();
            std::mem::swap(draft, &mut done);
            let id = hash_text(join(&done.lines, "\n").as_str());
            let ghost all = texts(done.lines@);
            let mut response = done.lines;
            response.remove(0);
            assert(texts(response@) =~= all.drop_first());
            Some(
                Card {
                    id,
                    file: file.to_owned(),
                    line: done.first_line.unwrap(),
                    prompt: done.prompt.unwrap(),
                    response,
                    tags: done.tags,
                },
            )
        } else {
            None
        }
    } else if draft.lines.len() > 0 {
        let ghost before = texts(draft.lines@);
        let text = string_of(line, 0, line.len());
        assert(line@.subrange(0, line.len() as int) =~= line@);
        draft.lines.push(text);
        assert(texts(draft.lines@) =~= before.push(line@));
        None
    } else {
        None
    }
}

/// The cards of the file `file`, whose content is `contents`.
pub fn parse_file(file: &str, contents: &str) -> (cards: Vec<Card>)
    ensures
        card_views(cards@) == cards_in(file@, contents@),
{
    let chars = chars_of(contents);
    let ignore = chars_of("@carddown-ignore");
    let mut cards: Vec<Card> = Vec::new();
    if holds_text(&chars, &ignore) {
        assert(card_views(cards@) =~= Seq::<CardView>::empty());
        return cards;
    }
    let bounds = split_lines(&chars);
    let pattern = tag_pattern();
    let ghost lines = lines_of(contents@);
    let mut draft = Draft::new();
    let mut k: usize = 0;
    assert(lines.take(0) =~= Seq::<Seq<char>>::empty());
    assert(card_views(cards@) =~= Seq::<CardView>::empty());
    while k < bounds.len()
        invariant
            k <= bounds.len(),
            chars@ == contents@,
            pattern_text(pattern) == tag_pattern_text(),
            lines == lines_of(contents@),
            lines == parts_of(chars@, bounds@),
            forall|i: int|
                0 <= i < bounds.len() ==> (#[trigger] bounds[i]).0 <= bounds[i].1 <= chars.len(),
            draft@ == cards_of_lines(file@, lines.take(k as int)).0,
            card_views(cards@) == cards_of_lines(file@, lines.take(k as int)).1,
        decreases bounds.len() - k,
    {
        let (a, b) = bounds[k];
        let line = part_of(&chars, a, b);
        proof {
            assert(lines.take(k + 1).drop_last() =~= lines.take(k as int));
            assert(lines.take(k + 1).last() == line@);
        }
        let ghost before = card_views(cards@);
        match read_line(&pattern, file, k as u64, &line, &mut draft) {
            Some(card) => {
                cards.push(card);
                assert(card_views(cards@) =~= before.push(card@));
            },
            None => {},
        }
        k = k + 1;
    }
    assert(lines.take(lines.len() as int) =~= lines);
    cards
}

} // verus!
