//! Paging through the desktop's persisted history: opaque cursors bound to
//! their query, page limits and byte budgets, and lossless chunking of one
//! item's text.
use vstd::prelude::*;
use crate::codec::{hex_chars, hex_decode, hex_decode_spec, hex_encode};
use crate::text::{chars_eq, chars_of};

verus! {

/// Most bytes of row text in one page.
pub const PAGE_BYTES: usize = 262144;

/// Characters of item text returned per chunk.
pub const CHUNK_CHARS: i64 = 8192;

/// Longest cursor text accepted, in bytes.
pub const MAX_CURSOR_TEXT: usize = 8192;

/// Error codes of history reads.
#[derive(Clone, Copy, Debug, PartialEq, Eq, Structural)]
pub enum HistoryCode {
    /// The cursor is malformed or belongs to another query (`INVALID_HISTORY_CURSOR`).
    InvalidCursor,
    /// The history changed under the cursor (`HISTORY_CURSOR_STALE`).
    StaleCursor,
    /// `limit must be 1..100` (HTTP 400).
    InvalidLimit,
    /// `invalid sortDirection` (HTTP 400).
    InvalidSortDirection,
    /// `UNSUPPORTED_ITEMS_VIEW`.
    UnsupportedItemsView,
}

/// A paging position, bound to the query that produced it.
#[derive(Debug)]
pub struct Cursor {
    pub version: u8,
    pub kind: String,
    pub thread: String,
    pub turn: String,
    pub order: String,
    pub head: i64,
    pub ordinal: i64,
    pub id: String,
    pub offset: i64,
    pub item_version: i64,
    pub length: i64,
}

impl Cursor {
    /// A cursor at the start of a query, fixed at the highest ordinal `head`
    /// seen when the first page was read.
    pub fn new(kind: &str, thread: &str, turn: &str, order: &str, head: i64) -> (c: Self)
        ensures
            c.version == 1,
            c.kind@ == kind@,
            c.thread@ == thread@,
            c.turn@ == turn@,
            c.order@ == order@,
            c.head == head,
            c.ordinal == -1,
            c.id@ == Seq::<char>::empty(),
            c.offset == 0,
            c.item_version == 0,
            c.length == 0,
            c.fits(kind@, thread@, turn@, order@) <==> head >= -1,
    {
        Cursor {
            version: 1,
            kind: crate::text::string_from_chars(chars_of(kind).as_slice()),
            thread: crate::text::string_from_chars(chars_of(thread).as_slice()),
            turn: crate::text::string_from_chars(chars_of(turn).as_slice()),
            order: crate::text::string_from_chars(chars_of(order).as_slice()),
            head,
            ordinal: -1,
            id: crate::text::string_from_chars(Vec::<char>::new().as_slice()),
            offset: 0,
            item_version: 0,
            length: 0,
        }
    }

    /// A decoded cursor belongs to the query: same format version, kind,
    /// task, turn and direction, with non-negative offset and positions at
    /// or above -1.
    pub open spec fn fits(&self, kind: Seq<char>, thread: Seq<char>, turn: Seq<char>, order: Seq<char>) -> bool {
        &&& self.version == 1
        &&& self.kind@ == kind
        &&& self.thread@ == thread
        &&& self.turn@ == turn
        &&& self.order@ == order
        &&& self.offset >= 0
        &&& self.head >= -1
        &&& self.ordinal >= -1
    }

    /// Checks that a decoded cursor belongs to the query.
    pub fn check_scope(&self, kind: &str, thread: &str, turn: &str, order: &str) -> (r: Result<(), HistoryCode>)
        ensures
            r is Ok <==> self.fits(kind@, thread@, turn@, order@),
            r is Err ==> r == Err::<(), HistoryCode>(HistoryCode::InvalidCursor),
    {
        if self.version != 1 || !same(&self.kind, kind) || !same(&self.thread, thread) || !same(&self.turn, turn)
            || !same(&self.order, order) || self.offset < 0 || self.head < -1 || self.ordinal < -1 {
            return Err(HistoryCode::InvalidCursor);
        }
        Ok(())
    }
}

fn same(a: &String, b: &str) -> (r: bool)
    ensures
        r == (a@ == b@),
{
    let x = chars_of(a.as_str());
    let y = chars_of(b);
    chars_eq(x.as_slice(), y.as_slice())
}

/// The text of a cursor whose serialized form is `serialized`: lowercase hexadecimal.
pub fn encode_cursor_text(serialized: &[u8]) -> (s: String)
    ensures
        s@ == hex_chars(serialized@),
{
    hex_encode(serialized)
}

/// Every character is ASCII.
pub open spec fn all_ascii(s: Seq<char>) -> bool {
    forall|k: int| 0 <= k < s.len() ==> (#[trigger] s[k] as u32) < 128
}

/// What a cursor text decodes to: at most `MAX_CURSOR_TEXT` ASCII
/// characters of even length, decoded pair by pair.
pub open spec fn spec_cursor_bytes(raw: Seq<char>) -> Result<Seq<u8>, HistoryCode> {
    if raw.len() > MAX_CURSOR_TEXT || raw.len() % 2 != 0 || !all_ascii(raw) {
        Err(HistoryCode::InvalidCursor)
    } else {
        match hex_decode_spec(raw) {
            Some(b) => Ok(b),
            None => Err(HistoryCode::InvalidCursor),
        }
    }
}

/// Decodes a cursor text to the serialized cursor it carries.
pub fn decode_cursor_text(raw: &str) -> (r: Result<Vec<u8>, HistoryCode>)
    ensures
        match (r, spec_cursor_bytes(raw@)) {
            (Ok(v), Ok(w)) => v@ == w,
            (Err(e), Err(f)) => e == f,
            _ => false,
        },
{
    let chars = chars_of(raw);
    let n = chars.len();
    if n > MAX_CURSOR_TEXT || n % 2 != 0 {
        return Err(HistoryCode::InvalidCursor);
    }
    let mut i: usize = 0;
    while i < n
        invariant
            i <= n,
            n == chars@.len(),
            chars@ == raw@,
            forall|k: int| 0 <= k < i ==> (#[trigger] chars@[k] as u32) < 128,
        decreases n - i,
    {
        if chars[i] as u32 >= 128 {
            return Err(HistoryCode::InvalidCursor);
        }
        i = i + 1;
    }
    match hex_decode(chars.as_slice()) {
        Some(b) => Ok(b),
        None => Err(HistoryCode::InvalidCursor),
    }
}

/// A cursor text made from serialized bytes decodes back to them.
pub proof fn lemma_cursor_text_roundtrip(serialized: Seq<u8>)
    requires
        serialized.len() <= MAX_CURSOR_TEXT / 2,
    ensures
        spec_cursor_bytes(hex_chars(serialized)) == Ok::<Seq<u8>, HistoryCode>(serialized),
{
    crate::codec::lemma_hex_chars_len(serialized);
    crate::codec::lemma_hex_roundtrip(serialized);
    crate::codec::lemma_hex_chars_are_digits(serialized);
    let h = hex_chars(serialized);
    assert forall|k: int| 0 <= k < h.len() implies (#[trigger] h[k] as u32) < 128 by {
        assert(crate::codec::hex_value(h[k]) is Some);
    }
}

/// The `limit` argument as the request gives it.
#[derive(Debug)]
pub enum LimitArg {
    Absent,
    Integer(i64),
    /// Present but not an integer.
    Other,
}

/// The page size: the default when absent, else an integer in 1..=100.
pub fn page_limit(arg: LimitArg, default: i64) -> (r: Result<i64, HistoryCode>)
    ensures
        match arg {
            LimitArg::Absent => r == Ok::<i64, HistoryCode>(default),
            LimitArg::Integer(v) => if 1 <= v <= 100 {
                r == Ok::<i64, HistoryCode>(v)
            } else {
                r == Err::<i64, HistoryCode>(HistoryCode::InvalidLimit)
            },
            LimitArg::Other => r == Err::<i64, HistoryCode>(HistoryCode::InvalidLimit),
        },
{
    match arg {
        LimitArg::Absent => Ok(default),
        LimitArg::Integer(v) => if 1 <= v && v <= 100 {
            Ok(v)
        } else {
            Err(HistoryCode::InvalidLimit)
        },
        LimitArg::Other => Err(HistoryCode::InvalidLimit),
    }
}

/// A sort direction.
#[derive(Clone, Copy, Debug, PartialEq, Eq, Structural)]
pub enum SortOrder {
    Asc,
    Desc,
}

/// The sort direction: `sortDirection` when it is a string, else the
/// default; only `asc` and `desc` are accepted.
pub fn sort_order(requested: Option<&str>, default: SortOrder) -> (r: Result<SortOrder, HistoryCode>)
    ensures
        match requested {
            None => r == Ok::<SortOrder, HistoryCode>(default),
            Some(s) => if s@ == "asc"@ {
                r == Ok::<SortOrder, HistoryCode>(SortOrder::Asc)
            } else if s@ == "desc"@ {
                r == Ok::<SortOrder, HistoryCode>(SortOrder::Desc)
            } else {
                r == Err::<SortOrder, HistoryCode>(HistoryCode::InvalidSortDirection)
            },
        },
{
    match requested {
        None => Ok(default),
        Some(s) => {
            let c = chars_of(s);
            let asc = chars_of("asc");
            let desc = chars_of("desc");
            if chars_eq(c.as_slice(), asc.as_slice()) {
                Ok(SortOrder::Asc)
            } else if chars_eq(c.as_slice(), desc.as_slice()) {
                Ok(SortOrder::Desc)
            } else {
                Err(HistoryCode::InvalidSortDirection)
            }
        },
    }
}

/// How much of each turn a turn list shows.
#[derive(Clone, Copy, Debug, PartialEq, Eq, Structural)]
pub enum ItemsView {
    Summary,
    NotLoaded,
}

/// The `itemsView` of a turn list: `summary` when absent; only `summary`
/// and `notLoaded` are accepted.
pub fn items_view(requested: Option<&str>) -> (r: Result<ItemsView, HistoryCode>)
    ensures
        match requested {
            None => r == Ok::<ItemsView, HistoryCode>(ItemsView::Summary),
            Some(s) => if s@ == "summary"@ {
                r == Ok::<ItemsView, HistoryCode>(ItemsView::Summary)
            } else if s@ == "notLoaded"@ {
                r == Ok::<ItemsView, HistoryCode>(ItemsView::NotLoaded)
            } else {
                r == Err::<ItemsView, HistoryCode>(HistoryCode::UnsupportedItemsView)
            },
        },
{
    match requested {
        None => Ok(ItemsView::Summary),
        Some(s) => {
            let c = chars_of(s);
            let summary = chars_of("summary");
            let not_loaded = chars_of("notLoaded");
            if chars_eq(c.as_slice(), summary.as_slice()) {
                Ok(ItemsView::Summary)
            } else if chars_eq(c.as_slice(), not_loaded.as_slice()) {
                Ok(ItemsView::NotLoaded)
            } else {
                Err(HistoryCode::UnsupportedItemsView)
            }
        },
    }
}

/// A cursor into a list is stale when its anchor row is gone or the list's
/// highest ordinal fell below the one the cursor was fixed at.
pub fn list_cursor_stale(anchor_exists: bool, head: i64, cursor_head: i64) -> (r: bool)
    ensures
        r == (!anchor_exists || head < cursor_head),
{
    !anchor_exists || head < cursor_head
}

/// Sum of the first `n` sizes.
pub open spec fn prefix_sum(sizes: Seq<usize>, n: int) -> nat
    decreases n,
{
    if n <= 0 || n > sizes.len() {
        0
    } else {
        prefix_sum(sizes, n - 1) + sizes[n - 1] as nat
    }
}

/// How many of the fetched rows fit on a page: rows are taken in order
/// until `limit` rows are taken or the next row would take the page's text
/// past `budget` (the first row is always taken).
pub open spec fn page_count(sizes: Seq<usize>, limit: nat, budget: nat, taken: nat, bytes: nat) -> nat
    decreases sizes.len() - taken,
{
    if taken >= sizes.len() || taken >= limit {
        taken
    } else if bytes + sizes[taken as int] > budget && taken > 0 {
        taken
    } else {
        page_count(sizes, limit, budget, taken + 1, bytes + sizes[taken as int] as nat)
    }
}

/// Builds one page a row at a time, within a row limit and a byte budget.
pub struct PageBudget {
    pub limit: usize,
    pub budget: usize,
    pub taken: usize,
    pub bytes: usize,
    pub more: bool,
}

impl PageBudget {
    pub fn new(limit: usize, budget: usize) -> (p: Self)
        ensures
            p.limit == limit,
            p.budget == budget,
            p.taken == 0,
            p.bytes == 0,
            !p.more,
    {
        PageBudget { limit, budget, taken: 0, bytes: 0, more: false }
    }

    /// Called when another row is available: false, marking that more rows
    /// remain, once the page holds `limit` rows.
    pub fn has_room(&mut self) -> (r: bool)
        ensures
            r == (old(self).taken < old(self).limit),
            final(self).more == (old(self).more || !r),
            final(self).limit == old(self).limit,
            final(self).budget == old(self).budget,
            final(self).taken == old(self).taken,
            final(self).bytes == old(self).bytes,
    {
        if self.taken >= self.limit {
            self.more = true;
            return false;
        }
        true
    }

    /// Offers a row of `size` bytes: taken unless it would exceed the
    /// budget on a page that already has a row (then more rows remain).
    pub fn offer(&mut self, size: usize) -> (r: bool)
        requires
            old(self).taken < old(self).limit,
            old(self).taken == 0 ==> old(self).bytes == 0,
        ensures
            r == !(old(self).bytes + size > old(self).budget && old(self).taken > 0),
            r ==> final(self).taken == old(self).taken + 1 && final(self).bytes == old(self).bytes + size
                && final(self).more == old(self).more,
            !r ==> final(self).taken == old(self).taken && final(self).bytes == old(self).bytes && final(self).more,
            final(self).limit == old(self).limit,
            final(self).budget == old(self).budget,
    {
        if (self.bytes > self.budget || size > self.budget - self.bytes) && self.taken > 0 {
            self.more = true;
            return false;
        }
        self.taken = self.taken + 1;
        self.bytes = self.bytes + size;
        true
    }
}

/// Which of the rows fetched for a page (one more than the limit is
/// fetched) go on it, given their sizes: the count, and whether rows remain.
pub fn paginate(sizes: &[usize], limit: usize, budget: usize) -> (r: (usize, bool))
    ensures
        r.0 == page_count(sizes@, limit as nat, budget as nat, 0, 0),
        r.1 == (r.0 < sizes@.len()),
{
    let mut page = PageBudget::new(limit, budget);
    let mut i: usize = 0;
    while i < sizes.len()
        invariant
            i <= sizes@.len(),
            page.taken == i,
            page.limit == limit,
            page.budget == budget,
            page.bytes as nat == prefix_sum(sizes@, i as int),
            !page.more,
            page_count(sizes@, limit as nat, budget as nat, 0, 0) == page_count(
                sizes@,
                limit as nat,
                budget as nat,
                i as nat,
                page.bytes as nat,
            ),
        decreases sizes.len() - i,
    {
        if !page.has_room() {
            return (page.taken, true);
        }
        if !page.offer(sizes[i]) {
            return (page.taken, true);
        }
        i = i + 1;
    }
    (page.taken, false)
}

/// A page holds at most `limit` rows and, unless it holds a single row, at
/// most `budget` bytes of row text; it holds at least one row when any was
/// fetched; and every row not on it is left for the next page.
pub proof fn lemma_page_bounds(sizes: Seq<usize>, limit: nat, budget: nat)
    ensures
        page_count(sizes, limit, budget, 0, 0) <= limit,
        page_count(sizes, limit, budget, 0, 0) <= sizes.len(),
        sizes.len() > 0 && limit > 0 ==> page_count(sizes, limit, budget, 0, 0) >= 1,
        page_count(sizes, limit, budget, 0, 0) > 1 ==> prefix_sum(
            sizes,
            page_count(sizes, limit, budget, 0, 0) as int,
        ) <= budget,
{
    lemma_page_count_step(sizes, limit, budget, 0, 0);
}

proof fn lemma_page_count_step(sizes: Seq<usize>, limit: nat, budget: nat, taken: nat, bytes: nat)
    requires
        taken <= sizes.len(),
        taken <= limit,
        bytes == prefix_sum(sizes, taken as int),
        taken > 1 ==> bytes <= budget,
    ensures
        taken <= page_count(sizes, limit, budget, taken, bytes) <= limit,
        page_count(sizes, limit, budget, taken, bytes) <= sizes.len(),
        taken == 0 && sizes.len() > 0 && limit > 0 ==> page_count(sizes, limit, budget, taken, bytes) >= 1,
        page_count(sizes, limit, budget, taken, bytes) > 1 ==> prefix_sum(
            sizes,
            page_count(sizes, limit, budget, taken, bytes) as int,
        ) <= budget,
    decreases sizes.len() - taken,
{
    if taken >= sizes.len() || taken >= limit {
    } else if bytes + sizes[taken as int] > budget && taken > 0 {
    } else {
        lemma_page_count_step(sizes, limit, budget, taken + 1, bytes + sizes[taken as int] as nat);
    }
}

/// A content cursor is stale when the item it was made for has moved,
/// changed version or length, or its offset is past the end.
pub fn content_cursor_stale(c: &Cursor, id: &str, ordinal: i64, version: i64, length: i64) -> (r: bool)
    ensures
        r == (c.id@ != id@ || c.ordinal != ordinal || c.item_version != version || c.length != length || c.offset
            > length),
{
    !same(&c.id, id) || c.ordinal != ordinal || c.item_version != version || c.length != length || c.offset > length
}

/// The chunk of an item's text that starts at character `offset`.
pub open spec fn chunk_at(content: Seq<char>, offset: int) -> Seq<char> {
    let end = if offset + CHUNK_CHARS < content.len() {
        offset + CHUNK_CHARS
    } else {
        content.len() as int
    };
    content.subrange(offset, end)
}

/// The chunks read one after another from `offset`, each continuing where
/// the previous one ended, joined together.
pub open spec fn chunks_from(content: Seq<char>, offset: int) -> Seq<char>
    decreases content.len() - offset,
{
    if offset < 0 || offset >= content.len() {
        Seq::empty()
    } else {
        chunk_at(content, offset) + chunks_from(content, offset + chunk_at(content, offset).len())
    }
}

/// Reading an item chunk by chunk from the start loses and repeats nothing.
pub proof fn lemma_chunks_cover(content: Seq<char>, offset: int)
    requires
        0 <= offset <= content.len(),
    ensures
        chunks_from(content, offset) == content.subrange(offset, content.len() as int),
    decreases content.len() - offset,
{
    if offset < content.len() {
        let c = chunk_at(content, offset);
        lemma_chunks_cover(content, offset + c.len());
        assert(c + content.subrange(offset + c.len(), content.len() as int) =~= content.subrange(
            offset,
            content.len() as int,
        ));
    } else {
        assert(content.subrange(offset, content.len() as int) =~= Seq::<char>::empty());
    }
}

/// After a chunk of `chunk_chars` characters read at `offset`: the next
/// offset, and whether a next cursor is handed out (text remains).
pub fn next_content_offset(offset: i64, chunk_chars: usize, length: i64) -> (r: (i64, bool))
    requires
        0 <= offset <= length,
        chunk_chars <= CHUNK_CHARS,
        offset + chunk_chars <= i64::MAX,
    ensures
        r.0 == offset + chunk_chars,
        r.1 == (r.0 < length),
{
    let next = offset + chunk_chars as i64;
    (next, next < length)
}

/// Whether the projection has caught up with the observed rollout file:
/// unknown when the file could not be observed.
pub fn rollout_matches(observed: Option<u64>, projected: i64) -> (r: Option<bool>)
    ensures
        match observed {
            None => r is None,
            Some(n) => r == Some(projected >= 0 && n == projected),
        },
{
    match observed {
        None => None,
        Some(n) => Some(projected >= 0 && n == projected as u64),
    }
}

// ---------------------------------------------------------------------------
// A page of turns

/// Longest item preview, in characters.
pub const PREVIEW_CHARS: usize = 2000;

/// The preview of an item's text: at most its first 2000 characters.
pub fn item_preview(text: &str) -> (r: String)
    ensures
        r@ == crate::text::take_chars(text@, PREVIEW_CHARS as nat),
{
    let c = chars_of(text);
    if c.len() <= PREVIEW_CHARS {
        crate::text::string_from_chars(c.as_slice())
    } else {
        crate::text::string_from_chars(crate::text::slice_range(c.as_slice(), 0, PREVIEW_CHARS).as_slice())
    }
}

/// A turn of the task as the history index holds it, with the size its
/// entry takes in the answer.
pub struct TurnRecord {
    pub id: String,
    pub ordinal: i64,
    pub first_user_item: Option<String>,
    pub final_agent_item: Option<String>,
    /// The latest persisted agent message, used while the turn has no final one.
    pub latest_agent_item: Option<String>,
    pub size: usize,
}

/// A turn on a page: its ID, position, and the IDs of the items summarised.
#[derive(Debug)]
pub struct TurnSummary {
    pub id: String,
    pub ordinal: i64,
    pub items: Vec<String>,
}

/// A page of turns, and the cursor to the next page while turns remain.
#[derive(Debug)]
pub struct TurnPage {
    pub turns: Vec<TurnSummary>,
    pub next_cursor: Option<Cursor>,
}

/// The highest position among the task's turns (-1 when there is none).
pub open spec fn turn_head(turns: Seq<TurnRecord>) -> int
    decreases turns.len(),
{
    if turns.len() == 0 {
        -1
    } else {
        let h = turn_head(turns.drop_last());
        if turns.last().ordinal > h {
            turns.last().ordinal as int
        } else {
            h
        }
    }
}

/// The turn a cursor is anchored at still exists at its position.
pub open spec fn anchor_exists(turns: Seq<TurnRecord>, id: Seq<char>, ordinal: i64) -> bool {
    exists|i: int| 0 <= i < turns.len() && #[trigger] turns[i].id@ == id && turns[i].ordinal == ordinal
}

pub open spec fn order_text(order: SortOrder) -> Seq<char> {
    if order == SortOrder::Desc {
        "desc"@
    } else {
        "asc"@
    }
}

/// Why a turn page is refused: a cursor of another query, or a cursor whose
/// anchor is gone or whose fixed head is above the current one.
pub open spec fn turn_page_refusal(turns: Seq<TurnRecord>, thread: Seq<char>, order: SortOrder, prior: Option<Cursor>) -> Option<HistoryCode> {
    match prior {
        None => None,
        Some(c) => if !c.fits("turns"@, thread, Seq::empty(), order_text(order)) {
            Some(HistoryCode::InvalidCursor)
        } else if !anchor_exists(turns, c.id@, c.ordinal) || turn_head(turns) < c.head {
            Some(HistoryCode::StaleCursor)
        } else {
            None
        },
    }
}

/// The head, anchor and position the page starts from: the cursor's, or
/// for a first page the current head and no anchor.
pub open spec fn start_head(turns: Seq<TurnRecord>, prior: Option<Cursor>) -> int {
    match prior {
        Some(c) => c.head as int,
        None => turn_head(turns),
    }
}

pub open spec fn start_id(prior: Option<Cursor>) -> Seq<char> {
    match prior {
        Some(c) => c.id@,
        None => Seq::empty(),
    }
}

pub open spec fn start_ordinal(prior: Option<Cursor>) -> int {
    match prior {
        Some(c) => c.ordinal as int,
        None => -1,
    }
}

/// A turn at or below the head and, when there is an anchor, after it in
/// the page order.
pub open spec fn turn_selected(t: TurnRecord, head: int, id: Seq<char>, ordinal: int, desc: bool) -> bool {
    &&& t.ordinal <= head
    &&& (id.len() == 0 || (if desc {
        t.ordinal < ordinal
    } else {
        t.ordinal > ordinal
    }))
}

/// The turns that may go on the page, in the order given.
pub open spec fn turn_candidates(turns: Seq<TurnRecord>, prior: Option<Cursor>, order: SortOrder) -> Seq<TurnRecord> {
    turns.filter(
        |t: TurnRecord|
            turn_selected(t, start_head(turns, prior), start_id(prior), start_ordinal(prior), order == SortOrder::Desc),
    )
}

pub open spec fn turn_sizes(cands: Seq<TurnRecord>) -> Seq<usize> {
    cands.map_values(|t: TurnRecord| t.size)
}

pub open spec fn opt_item(o: Option<String>) -> Seq<Seq<char>> {
    match o {
        Some(s) => seq![s@],
        None => Seq::empty(),
    }
}

/// The items a turn's summary shows: the first user message, then the
/// final agent message (else the latest one); none when turns are listed
/// without their items.
pub open spec fn summary_items(t: TurnRecord, view: ItemsView) -> Seq<Seq<char>> {
    if view == ItemsView::NotLoaded {
        Seq::empty()
    } else {
        opt_item(t.first_user_item) + opt_item(
            if t.final_agent_item is Some {
                t.final_agent_item
            } else {
                t.latest_agent_item
            },
        )
    }
}

pub open spec fn strings_view(v: Seq<String>) -> Seq<Seq<char>> {
    v.map_values(|s: String| s@)
}

/// The turns a page may hold after a cursor anchored at a turn are exactly
/// the task's turns at or below the cursor's head and strictly past the
/// anchor in the page order: above its position when ascending, below it
/// when descending. So the anchor and every turn on an earlier page (all
/// of them at or before the anchor) never come again.
pub proof fn lemma_turns_after_anchor(turns: Seq<TurnRecord>, prior: Option<Cursor>, order: SortOrder, t: TurnRecord)
    requires
        prior is Some,
        prior->Some_0.id@.len() > 0,
    ensures
        ({
            let c = prior->Some_0;
            turn_candidates(turns, prior, order).contains(t) == (turns.contains(t) && t.ordinal <= c.head && (if order
                == SortOrder::Desc {
                t.ordinal < c.ordinal
            } else {
                t.ordinal > c.ordinal
            }))
        }),
{
    let c = prior->Some_0;
    let f = |x: TurnRecord| turn_selected(x, start_head(turns, prior), start_id(prior), start_ordinal(prior), order == SortOrder::Desc);
    assert(turn_candidates(turns, prior, order) == turns.filter(f));
    if turns.filter(f).contains(t) {
        turns.lemma_filter_contains_rev(f, t);
        let i = choose|i: int| 0 <= i < turns.filter(f).len() && turns.filter(f)[i] == t;
        turns.lemma_filter_pred(f, i);
    }
    if turns.contains(t) && f(t) {
        let i = choose|i: int| 0 <= i < turns.len() && turns[i] == t;
        turns.lemma_filter_contains(f, i);
    }
}

/// `x` comes after `o` in the page order.
pub open spec fn past(x: int, o: int, desc: bool) -> bool {
    if desc { x < o } else { x > o }
}

/// The turns stand in the page order, each strictly after the one before.
pub open spec fn in_page_order(s: Seq<TurnRecord>, desc: bool) -> bool {
    forall|i: int, j: int| 0 <= i < j < s.len() ==> past(#[trigger] s[j].ordinal as int, #[trigger] s[i].ordinal as int, desc)
}

proof fn lemma_filter_and(s: Seq<TurnRecord>, p: spec_fn(TurnRecord) -> bool, q: spec_fn(TurnRecord) -> bool)
    ensures
        s.filter(|x: TurnRecord| p(x) && q(x)) == s.filter(p).filter(q),
    decreases s.len(),
{
    if s.len() > 0 {
        let d = s.drop_last();
        let l = s.last();
        lemma_filter_and(d, p, q);
        assert(d.push(l) =~= s);
        d.lemma_filter_push(l, |x: TurnRecord| p(x) && q(x));
        d.lemma_filter_push(l, p);
        d.filter(p).lemma_filter_push(l, q);
    } else {
        reveal(Seq::filter);
    }
}

proof fn lemma_filter_in_order(s: Seq<TurnRecord>, p: spec_fn(TurnRecord) -> bool, desc: bool)
    requires
        in_page_order(s, desc),
    ensures
        in_page_order(s.filter(p), desc),
    decreases s.len(),
{
    if s.len() > 0 {
        let d = s.drop_last();
        let l = s.last();
        assert(in_page_order(d, desc)) by {
            assert forall|i: int, j: int| 0 <= i < j < d.len() implies past(#[trigger] d[j].ordinal as int, #[trigger] d[i].ordinal as int, desc) by {
                assert(d[i] == s[i] && d[j] == s[j]);
            }
        }
        lemma_filter_in_order(d, p, desc);
        assert(d.push(l) =~= s);
        d.lemma_filter_push(l, p);
        if p(l) {
            let f = d.filter(p);
            let g = f.push(l);
            assert forall|i: int, j: int| 0 <= i < j < g.len() implies past(#[trigger] g[j].ordinal as int, #[trigger] g[i].ordinal as int, desc) by {
                if j == f.len() {
                    assert(g[i] == f[i]);
                    assert(f.contains(f[i]));
                    d.lemma_filter_contains_rev(p, f[i]);
                    let m = choose|m: int| 0 <= m < d.len() && d[m] == f[i];
                    assert(s[m] == d[m] && s[s.len() - 1] == l);
                } else {
                    assert(g[i] == f[i] && g[j] == f[j]);
                }
            }
        }
    } else {
        reveal(Seq::filter);
    }
}

proof fn lemma_filter_past_suffix(s: Seq<TurnRecord>, k: int, desc: bool)
    requires
        in_page_order(s, desc),
        0 < k <= s.len(),
    ensures
        s.filter(|x: TurnRecord| past(x.ordinal as int, s[k - 1].ordinal as int, desc)) == s.subrange(k, s.len() as int),
    decreases s.len(),
{
    let o = s[k - 1].ordinal as int;
    let q = |x: TurnRecord| past(x.ordinal as int, o, desc);
    let d = s.drop_last();
    let l = s.last();
    assert(d.push(l) =~= s);
    assert(in_page_order(d, desc)) by {
        assert forall|i: int, j: int| 0 <= i < j < d.len() implies past(#[trigger] d[j].ordinal as int, #[trigger] d[i].ordinal as int, desc) by {
            assert(d[i] == s[i] && d[j] == s[j]);
        }
    }
    d.lemma_filter_push(l, q);
    if k == s.len() {
        assert(!q(l));
        assert(d.filter(q).len() == 0) by {
            if d.filter(q).len() > 0 {
                d.lemma_filter_pred(q, 0);
                let y = d.filter(q)[0];
                assert(d.filter(q).contains(y));
                d.lemma_filter_contains_rev(q, y);
                let m = choose|m: int| 0 <= m < d.len() && d[m] == y;
                assert(s[m] == y);
                assert(m < k - 1 ==> past(s[k - 1].ordinal as int, s[m].ordinal as int, desc));
                assert(m == k - 1 ==> !q(s[m]));
            }
        }
        assert(d.filter(q) =~= s.subrange(k, s.len() as int));
    } else {
        assert(q(l)) by {
            assert(past(s[s.len() - 1].ordinal as int, s[k - 1].ordinal as int, desc));
        }
        assert(d[k - 1] == s[k - 1]);
        lemma_filter_past_suffix(d, k, desc);
        assert(d.filter(q) == d.subrange(k, d.len() as int));
        assert(d.subrange(k, d.len() as int).push(l) =~= s.subrange(k, s.len() as int));
    }
}

/// Pages chained by their cursors lose and repeat nothing: when the
/// task's turns stand in the page order, the turns a page may hold after a
/// cursor anchored at the last of `k` turns given (with the same head) are
/// exactly the turns that were left after those `k`.
pub proof fn lemma_next_page_continues(turns: Seq<TurnRecord>, prior: Option<Cursor>, order: SortOrder, next: Cursor, k: int)
    requires
        in_page_order(turns, order == SortOrder::Desc),
        0 < k <= turn_candidates(turns, prior, order).len(),
        next.head == start_head(turns, prior),
        next.id@.len() > 0,
        next.ordinal == turn_candidates(turns, prior, order)[k - 1].ordinal,
    ensures
        turn_candidates(turns, Some(next), order) == turn_candidates(turns, prior, order).subrange(
            k,
            turn_candidates(turns, prior, order).len() as int,
        ),
{
    let desc = order == SortOrder::Desc;
    let h = start_head(turns, prior);
    let sid = start_id(prior);
    let so = start_ordinal(prior);
    let p1 = |t: TurnRecord| turn_selected(t, h, sid, so, desc);
    let cands = turns.filter(p1);
    assert(cands == turn_candidates(turns, prior, order));
    let o = next.ordinal as int;
    let q = |x: TurnRecord| past(x.ordinal as int, cands[k - 1].ordinal as int, desc);
    let p2 = |t: TurnRecord| turn_selected(t, next.head as int, next.id@, next.ordinal as int, desc);
    assert(turn_candidates(turns, Some(next), order) == turns.filter(p2));
    turns.lemma_filter_pred(p1, k - 1);
    assert(p2 =~= (|x: TurnRecord| p1(x) && q(x)));
    lemma_filter_and(turns, p1, q);
    lemma_filter_in_order(turns, p1, desc);
    lemma_filter_past_suffix(cands, k, desc);
}

/// A first page may hold every turn at or below the current head, in the
/// order given.
pub proof fn lemma_first_page_candidates(turns: Seq<TurnRecord>, order: SortOrder)
    ensures
        turn_candidates(turns, None, order) == turns.filter(|t: TurnRecord| t.ordinal <= turn_head(turns)),
{
    assert(turn_candidates(turns, None, order) =~= turns.filter(|t: TurnRecord| t.ordinal <= turn_head(turns))) by {
        let f = |t: TurnRecord| turn_selected(t, start_head(turns, None), start_id(None), start_ordinal(None), order == SortOrder::Desc);
        let g = |t: TurnRecord| t.ordinal <= turn_head(turns);
        assert(f =~= g);
    }
}

/// A turn's summary lists its first user item, when it has one, then its
/// final agent item, or else its latest agent item, when there is one;
/// turns listed without items show none.
pub proof fn lemma_summary_items(t: TurnRecord, view: ItemsView)
    ensures
        view == ItemsView::NotLoaded ==> summary_items(t, view).len() == 0,
        view != ItemsView::NotLoaded ==> ({
            let s = summary_items(t, view);
            let agent = if t.final_agent_item is Some { t.final_agent_item } else { t.latest_agent_item };
            &&& s.len() == (if t.first_user_item is Some { 1int } else { 0int }) + (if agent is Some { 1int } else { 0int })
            &&& t.first_user_item is Some ==> s[0] == t.first_user_item->Some_0@
            &&& agent is Some ==> s[s.len() - 1] == agent->Some_0@
        }),
{
}

fn turn_head_exec(turns: &Vec<TurnRecord>) -> (h: i64)
    ensures
        h == turn_head(turns@),
{
    let mut h: i64 = -1;
    let mut i: usize = 0;
    while i < turns.len()
        invariant
            i <= turns@.len(),
            h == turn_head(turns@.subrange(0, i as int)),
        decreases turns@.len() - i,
    {
        assert(turns@.subrange(0, i as int + 1).drop_last() =~= turns@.subrange(0, i as int));
        if turns[i].ordinal > h {
            h = turns[i].ordinal;
        }
        i = i + 1;
    }
    assert(turns@.subrange(0, turns@.len() as int) =~= turns@);
    h
}

fn anchor_exists_exec(turns: &Vec<TurnRecord>, id: &String, ordinal: i64) -> (r: bool)
    ensures
        r == anchor_exists(turns@, id@, ordinal),
{
    let mut i: usize = 0;
    while i < turns.len()
        invariant
            i <= turns@.len(),
            forall|j: int| 0 <= j < i ==> !(#[trigger] turns@[j].id@ == id@ && turns@[j].ordinal == ordinal),
        decreases turns@.len() - i,
    {
        if turns[i].ordinal == ordinal && same(&turns[i].id, id.as_str()) {
            assert(turns@[i as int].id@ == id@);
            return true;
        }
        i = i + 1;
    }
    false
}

fn push_opt(v: &mut Vec<String>, o: &Option<String>)
    ensures
        strings_view(final(v)@) == strings_view(old(v)@) + opt_item(*o),
{
    let ghost before = v@;
    match o {
        Some(s) => {
            v.push(s.clone());
            assert(strings_view(v@) =~= strings_view(before) + opt_item(*o));
        },
        None => {
            assert(strings_view(v@) =~= strings_view(before) + opt_item(*o));
        },
    }
}

fn summary_items_exec(t: &TurnRecord, view: ItemsView) -> (r: Vec<String>)
    ensures
        strings_view(r@) == summary_items(*t, view),
{
    let mut v: Vec<String> = Vec::new();
    if view == ItemsView::NotLoaded {
        assert(strings_view(v@) =~= Seq::<Seq<char>>::empty());
        return v;
    }
    assert(strings_view(v@) =~= Seq::<Seq<char>>::empty());
    push_opt(&mut v, &t.first_user_item);
    if t.final_agent_item.is_some() {
        push_opt(&mut v, &t.final_agent_item);
    } else {
        push_opt(&mut v, &t.latest_agent_item);
    }
    v
}

/// A page of a task's turns, from the turns the index holds in the order
/// asked for. A cursor must belong to this query (`INVALID_HISTORY_CURSOR`)
/// and its anchor turn must still exist with the head not below the one
/// it fixed (`HISTORY_CURSOR_STALE`). The page holds the turns at or below
/// the head and after the anchor, in order, as many as the row limit and
/// the byte budget allow (the first always); each summarises its first
/// user item and its final (else latest) agent item. The next cursor,
/// anchored at the last turn given, is handed out exactly when turns
/// remain.
pub fn turn_page(
    turns: &Vec<TurnRecord>,
    thread: &str,
    order: SortOrder,
    view: ItemsView,
    limit: usize,
    budget: usize,
    prior: Option<Cursor>,
) -> (r: Result<TurnPage, HistoryCode>)
    ensures
        turn_page_refusal(turns@, thread@, order, prior) matches Some(e) ==> r == Err::<TurnPage, HistoryCode>(e),
        turn_page_refusal(turns@, thread@, order, prior) is None ==> r is Ok,
        r matches Ok(page) ==> ({
            let cands = turn_candidates(turns@, prior, order);
            let k = page_count(turn_sizes(cands), limit as nat, budget as nat, 0, 0);
            &&& page.turns@.len() == k
            &&& forall|j: int| 0 <= j < k ==> (#[trigger] page.turns@[j]).id@ == cands[j].id@
                && page.turns@[j].ordinal == cands[j].ordinal
                && strings_view(page.turns@[j].items@) == summary_items(cands[j], view)
            &&& (page.next_cursor is Some) == (k < cands.len())
            &&& page.next_cursor matches Some(c) ==> {
                &&& c.version == 1 && c.kind@ == "turns"@ && c.thread@ == thread@ && c.turn@.len() == 0
                &&& c.order@ == order_text(order)
                &&& c.head == start_head(turns@, prior)
                &&& k > 0 ==> c.id@ == cands[k - 1].id@ && c.ordinal == cands[k - 1].ordinal
                &&& k == 0 ==> c.id@ == start_id(prior) && c.ordinal == start_ordinal(prior)
            }
        }),
{
    let head = turn_head_exec(turns);
    let order_str: &str = if order == SortOrder::Desc { "desc" } else { "asc" };
    proof {
        reveal_strlit("desc");
        reveal_strlit("asc");
        reveal_strlit("");
    }
    assert(order_str@ == order_text(order));
    assert(""@ == Seq::<char>::empty());
    let desc = order == SortOrder::Desc;
    let start: Cursor = match prior {
        Some(c) => {
            if c.check_scope("turns", thread, "", order_str).is_err() {
                return Err(HistoryCode::InvalidCursor);
            }
            if !anchor_exists_exec(turns, &c.id, c.ordinal) || head < c.head {
                return Err(HistoryCode::StaleCursor);
            }
            c
        },
        None => Cursor::new("turns", thread, "", order_str, head),
    };
    let ghost h = start_head(turns@, prior);
    let ghost sid = start_id(prior);
    let ghost sord = start_ordinal(prior);
    assert(start.head == h && start.id@ == sid && start.ordinal == sord);
    let anchored = chars_of(start.id.as_str()).len() > 0;
    let mut idx: Vec<usize> = Vec::new();
    let mut sizes: Vec<usize> = Vec::new();
    let mut i: usize = 0;
    while i < turns.len()
        invariant
            i <= turns@.len(),
            idx@.len() == sizes@.len(),
            forall|k: int| 0 <= k < idx@.len() ==> #[trigger] idx@[k] < turns@.len(),
            idx@.map_values(|j: usize| turns@[j as int]) == turns@.subrange(0, i as int).filter(|t: TurnRecord| turn_selected(t, h, sid, sord, desc)),
            sizes@ == turn_sizes(turns@.subrange(0, i as int).filter(|t: TurnRecord| turn_selected(t, h, sid, sord, desc))),
            start.head == h,
            start.id@ == sid,
            start.ordinal == sord,
            anchored == (sid.len() > 0),
        decreases turns@.len() - i,
    {
        let ghost prev = turns@.subrange(0, i as int);
        assert(turns@.subrange(0, i as int + 1) =~= prev.push(turns@[i as int]));
        proof { prev.lemma_filter_push(turns@[i as int], |t: TurnRecord| turn_selected(t, h, sid, sord, desc)); }
        let t = &turns[i];
        let selected = t.ordinal <= start.head && (!anchored || (if desc {
            t.ordinal < start.ordinal
        } else {
            t.ordinal > start.ordinal
        }));
        assert(selected == turn_selected(turns@[i as int], h, sid, sord, desc));
        if selected {
            let ghost before_idx = idx@;
            idx.push(i);
            sizes.push(t.size);
            assert(idx@.map_values(|j: usize| turns@[j as int]) =~= before_idx.map_values(|j: usize| turns@[j as int]).push(
                turns@[i as int],
            ));
            assert(sizes@ =~= turn_sizes(turns@.subrange(0, i as int + 1).filter(|t: TurnRecord| turn_selected(t, h, sid, sord, desc))));
        }
        i = i + 1;
    }
    assert(turns@.subrange(0, turns@.len() as int) =~= turns@);
    let ghost cands = turns@.filter(|t: TurnRecord| turn_selected(t, h, sid, sord, desc));
    assert(cands =~= turn_candidates(turns@, prior, order));
    let (k, more) = paginate(sizes.as_slice(), limit, budget);
    proof {
        lemma_page_bounds(sizes@, limit as nat, budget as nat);
        assert(idx@.len() == idx@.map_values(|x: usize| turns@[x as int]).len());
    }
    let mut out: Vec<TurnSummary> = Vec::new();
    let mut j: usize = 0;
    while j < k
        invariant
            j <= k,
            k <= idx@.len(),
            idx@.len() == cands.len(),
            forall|q: int| 0 <= q < idx@.len() ==> #[trigger] idx@[q] < turns@.len(),
            idx@.map_values(|x: usize| turns@[x as int]) == cands,
            out@.len() == j,
            forall|q: int| 0 <= q < j ==> (#[trigger] out@[q]).id@ == cands[q].id@ && out@[q].ordinal == cands[q].ordinal
                && strings_view(out@[q].items@) == summary_items(cands[q], view),
        decreases k - j,
    {
        assert(cands[j as int] == turns@[idx@[j as int] as int]);
        let t = &turns[idx[j]];
        out.push(TurnSummary { id: t.id.clone(), ordinal: t.ordinal, items: summary_items_exec(t, view) });
        j = j + 1;
    }
    let next_cursor = if more {
        let mut c = start;
        if k > 0 {
            assert(cands[k as int - 1] == turns@[idx@[k as int - 1] as int]);
            let t = &turns[idx[k - 1]];
            c.id = t.id.clone();
            c.ordinal = t.ordinal;
        }
        Some(c)
    } else {
        None
    };
    Ok(TurnPage { turns: out, next_cursor })
}

} // verus!
