//! Backtraces reduced to the few frames that name a code path.
//!
//! A signature lists the distinct frames of a backtrace that matter for a
//! purpose, each as the last two components of its symbol, as one line of the
//! form `a <- b <- c`.

use crate::backtrace;
use crate::text;
use std::backtrace::Backtrace;
use vstd::prelude::*;
use vstd::slice::slice_subrange;

verus! {

/// The frames that a `Dmabuf` creation path is told by, at most.
pub const CREATION_FRAMES: usize = 6;

/// The frames that a slot's acquire path is told by, at most.
pub const ACQUIRE_FRAMES: usize = 5;

/// What the lines that name a `Dmabuf` creation path contain.
pub open spec fn creation_marks() -> Seq<Seq<char>> {
    seq![
        "swapchain"@,
        "::export"@,
        "import_dmabuf"@,
        "dmabuf"@,
        "render_frame"@,
        "allow_frame_flags"@,
        "drm::compositor"@,
        "drm::output"@,
        "renderer::element::surface"@,
        "cosmic_comp"@,
        "WlBuffer"@,
        "import_buffer"@,
    ]
}

/// What the lines that name a slot's acquire path contain.
pub open spec fn acquire_marks() -> Seq<Seq<char>> {
    seq![
        "cosmic_comp::backend::kms"@,
        "drm::output"@,
        "drm::compositor"@,
        "allow_frame_flags"@,
        "apply_config"@,
        "initialize_output"@,
        "use_mode"@,
        "try_to_restore"@,
        "submit_composited_frame"@,
    ]
}

/// `line` contains one of `marks`.
pub open spec fn is_relevant(line: Seq<char>, marks: Seq<Seq<char>>) -> bool {
    exists|k: int| 0 <= k < marks.len() && text::contains(line, #[trigger] marks[k])
}

/// The symbol that `line` names: what follows its first colon and space, if it
/// has them, up to the hash that the compiler appends.
pub open spec fn symbol_of(line: Seq<char>) -> Seq<char> {
    let named = match text::find(line, ": "@) {
        Some(i) => line.skip(i + 2),
        None => line,
    };
    match text::find(named, "::h"@) {
        Some(i) => named.take(i),
        None => named,
    }
}

/// The last two components of `symbol`.
pub open spec fn last_two_components(symbol: Seq<char>) -> Seq<char> {
    match text::rfind(symbol, "::"@) {
        None => symbol,
        Some(last) => match text::rfind(symbol.take(last), "::"@) {
            None => symbol,
            Some(second) => symbol.skip(second + 2),
        },
    }
}

/// The frame that a line stands for.
pub open spec fn frame_of(line: Seq<char>) -> Seq<char> {
    last_two_components(symbol_of(line))
}

/// `frames` after one more line: with the frame of the line, if it is relevant
/// and its frame is new.
pub open spec fn with_line(
    frames: Seq<Seq<char>>,
    line: Seq<char>,
    marks: Seq<Seq<char>>,
) -> Seq<Seq<char>> {
    let line = text::trim(line);
    let frame = frame_of(line);
    if is_relevant(line, marks) && frame.len() > 0 && !frames.contains(frame) {
        frames.push(frame)
    } else {
        frames
    }
}

/// `frames` and those that `lines` add to them, until there are `limit` frames.
pub open spec fn with_lines(
    frames: Seq<Seq<char>>,
    lines: Seq<Seq<char>>,
    marks: Seq<Seq<char>>,
    limit: nat,
) -> Seq<Seq<char>>
    decreases lines.len(),
{
    if lines.len() == 0 || frames.len() >= limit {
        frames
    } else {
        with_lines(with_line(frames, lines.first(), marks), lines.drop_first(), marks, limit)
    }
}

/// The first `limit` distinct frames of the lines of `text` that contain one of
/// `marks`.
pub open spec fn frames_of(text: Seq<char>, marks: Seq<Seq<char>>, limit: nat) -> Seq<Seq<char>> {
    with_lines(Seq::empty(), text::lines(text), marks, limit)
}

/// The signature of the backtrace `text`.
pub open spec fn signature(text: Seq<char>, marks: Seq<Seq<char>>, limit: nat) -> Seq<char> {
    let frames = frames_of(text, marks, limit);
    if frames.len() == 0 {
        "<other>"@
    } else {
        text::join(frames, " <- "@)
    }
}

/// The characters of each of `texts`.
spec fn views(texts: Seq<Vec<char>>) -> Seq<Seq<char>> {
    texts.map_values(|text: Vec<char>| text@)
}

/// Whether `line` contains one of `marks`.
fn relevant(line: &[char], marks: &Vec<Vec<char>>) -> (result: bool)
    ensures
        result == is_relevant(line@, views(marks@)),
{
    for k in 0..marks.len()
        invariant
            forall|j: int| 0 <= j < k ==> !text::contains(line@, #[trigger] views(marks@)[j]),
    {
        if text::has(line, marks[k].as_slice()) {
            assert(text::contains(line@, views(marks@)[k as int]));
            return true;
        }
    }
    false
}

/// The frame that `line` stands for.
fn frame(line: &[char]) -> (result: &[char])
    ensures
        result@ == frame_of(line@),
{
    proof {
        reveal_strlit(": ");
        reveal_strlit("::h");
        reveal_strlit("::");
        text::lemma_find_from(line@, ": "@, 0);
    }
    let length: usize = line.len();
    let named = match text::position(line, text::chars_of(": ").as_slice()) {
        Some(i) => slice_subrange(line, i + 2, length),
        None => line,
    };
    proof {
        text::lemma_find_from(named@, "::h"@, 0);
    }
    let symbol = match text::position(named, text::chars_of("::h").as_slice()) {
        Some(i) => slice_subrange(named, 0, i),
        None => named,
    };
    let separator = text::chars_of("::");
    match text::last_position(symbol, separator.as_slice()) {
        None => symbol,
        Some(last) => {
            proof {
                text::lemma_rfind_upto(symbol@, "::"@, symbol@.len() - 2);
            }
            let before = slice_subrange(symbol, 0, last);
            match text::last_position(before, separator.as_slice()) {
                None => symbol,
                Some(second) => {
                    proof {
                        text::lemma_rfind_upto(before@, "::"@, before@.len() - 2);
                    }
                    slice_subrange(symbol, second + 2, symbol.len())
                },
            }
        },
    }
}

/// Whether `frame` is one of `frames`.
fn is_listed(frames: &Vec<Vec<char>>, frame: &[char]) -> (result: bool)
    ensures
        result == views(frames@).contains(frame@),
{
    for i in 0..frames.len()
        invariant
            forall|j: int| 0 <= j < i ==> (#[trigger] views(frames@)[j]) != frame@,
    {
        if text::same(frames[i].as_slice(), frame) {
            assert(views(frames@)[i as int] == frame@);
            return true;
        }
    }
    false
}

/// The signature of the backtrace `text`.
fn signature_of(text: &str, marks: &Vec<Vec<char>>, limit: usize) -> (result: String)
    ensures
        result@ == signature(text@, views(marks@), limit as nat),
{
    let chars = text::chars_of(text);
    let feed: Vec<char> = vec!['\n'];
    let mut rest = chars.as_slice();
    let mut frames: Vec<Vec<char>> = Vec::new();
    assert(views(frames@) =~= Seq::empty());
    while rest.len() > 0 && frames.len() < limit
        invariant
            feed@ == seq!['\n'],
            frames_of(text@, views(marks@), limit as nat) == with_lines(
                views(frames@),
                text::lines(rest@),
                views(marks@),
                limit as nat,
            ),
        decreases rest@.len(),
    {
        proof {
            text::lemma_find_from(rest@, seq!['\n'], 0);
        }
        let ghost before = rest@;
        let mut line = rest;
        match text::position(rest, feed.as_slice()) {
            Some(i) => {
                line = slice_subrange(rest, 0, i);
                if i > 0 && rest[i - 1] == '\r' {
                    line = slice_subrange(rest, 0, i - 1);
                }
                rest = slice_subrange(rest, i + 1, rest.len());
            },
            None => {
                rest = slice_subrange(rest, rest.len(), rest.len());
            },
        }
        proof {
            assert(text::lines(before).first() =~= line@);
            assert(text::lines(before).drop_first() =~= text::lines(rest@));
        }
        let ghost listed = views(frames@);
        let line = text::trimmed(line);
        if relevant(line, marks) {
            let frame = frame(line);
            if frame.len() > 0 && !is_listed(&frames, frame) {
                let mut owned: Vec<char> = Vec::new();
                text::push_chars(&mut owned, frame);
                frames.push(owned);
                assert(views(frames@) =~= listed.push(frame@));
            }
        }
    }
    if frames.len() == 0 {
        text::string_of(text::chars_of("<other>").as_slice())
    } else {
        text::string_of(text::joined(&frames, " <- ").as_slice())
    }
}

/// The signature of a `Dmabuf` creation path, from the text of a backtrace.
pub fn creation_signature(text: &str) -> (result: String)
    ensures
        result@ == signature(text@, creation_marks(), CREATION_FRAMES as nat),
        result@ == signature(text@, creation_marks(), 6),
{
    let marks: Vec<Vec<char>> = vec![
        text::chars_of("swapchain"),
        text::chars_of("::export"),
        text::chars_of("import_dmabuf"),
        text::chars_of("dmabuf"),
        text::chars_of("render_frame"),
        text::chars_of("allow_frame_flags"),
        text::chars_of("drm::compositor"),
        text::chars_of("drm::output"),
        text::chars_of("renderer::element::surface"),
        text::chars_of("cosmic_comp"),
        text::chars_of("WlBuffer"),
        text::chars_of("import_buffer"),
    ];
    assert(views(marks@) =~= creation_marks());
    signature_of(text, &marks, CREATION_FRAMES)
}

/// The signature of a slot's acquire path, from the text of a backtrace.
pub fn acquire_path_signature(text: &str) -> (result: String)
    ensures
        result@ == signature(text@, acquire_marks(), ACQUIRE_FRAMES as nat),
        result@ == signature(text@, acquire_marks(), 5),
{
    let marks: Vec<Vec<char>> = vec![
        text::chars_of("cosmic_comp::backend::kms"),
        text::chars_of("drm::output"),
        text::chars_of("drm::compositor"),
        text::chars_of("allow_frame_flags"),
        text::chars_of("apply_config"),
        text::chars_of("initialize_output"),
        text::chars_of("use_mode"),
        text::chars_of("try_to_restore"),
        text::chars_of("submit_composited_frame"),
    ];
    assert(views(marks@) =~= acquire_marks());
    signature_of(text, &marks, ACQUIRE_FRAMES)
}

/// `text` is the text of a backtrace that was captured.
pub open spec fn is_backtrace_text(text: Seq<char>) -> bool {
    exists|captured: Backtrace, rendered: String|
        {
            &&& backtrace::is_capture(captured)
            &&& #[trigger] backtrace::is_rendering(captured, rendered)
            &&& text == rendered@
        }
}

/// `created_at` is the signature of a `Dmabuf` creation path that was captured.
pub open spec fn is_creation_signature(created_at: Seq<char>) -> bool {
    exists|text: Seq<char>|
        {
            &&& is_backtrace_text(text)
            &&& created_at == #[trigger] signature(
                text,
                creation_marks(),
                CREATION_FRAMES as nat,
            )
        }
}

/// `acquired_at` is the signature of an acquire path that was captured.
pub open spec fn is_acquire_signature(acquired_at: Seq<char>) -> bool {
    exists|text: Seq<char>|
        {
            &&& is_backtrace_text(text)
            &&& acquired_at == #[trigger] signature(text, acquire_marks(), ACQUIRE_FRAMES as nat)
        }
}

/// The text of the current backtrace.
fn current_backtrace() -> (text: String)
    ensures
        is_backtrace_text(text@),
{
    let captured = Backtrace::force_capture();
    let text = backtrace::symbolise(&captured);
    assert(backtrace::is_capture(captured) && backtrace::is_rendering(captured, text));
    text
}

/// Where the caller is creating a `Dmabuf`, told by the current backtrace.
pub fn dmabuf_creation_signature() -> (result: String)
    ensures
        is_creation_signature(result@),
{
    let text = current_backtrace();
    creation_signature(text.as_str())
}

/// Where the caller is acquiring a slot, told by the current backtrace.
pub fn acquire_signature() -> (result: String)
    ensures
        is_acquire_signature(result@),
{
    let text = current_backtrace();
    acquire_path_signature(text.as_str())
}

/// `frames` are different from each other, none of them is empty, and each stands
/// for one of `lines` that is relevant.
pub open spec fn are_frames_of(
    frames: Seq<Seq<char>>,
    lines: Seq<Seq<char>>,
    marks: Seq<Seq<char>>,
) -> bool {
    &&& frames.no_duplicates()
    &&& forall|i: int|
        0 <= i < frames.len() ==> {
            &&& (#[trigger] frames[i]).len() > 0
            &&& names_frame(lines, marks, frames[i])
        }
}

/// One of `lines` is relevant and stands for `frame`.
pub open spec fn names_frame(
    lines: Seq<Seq<char>>,
    marks: Seq<Seq<char>>,
    frame: Seq<char>,
) -> bool {
    exists|k: int|
        {
            let line = text::trim(#[trigger] lines[k]);
            0 <= k < lines.len() && is_relevant(line, marks) && frame == frame_of(line)
        }
}

/// Frames that further lines add keep this.
proof fn lemma_with_lines(
    frames: Seq<Seq<char>>,
    lines: Seq<Seq<char>>,
    from: int,
    marks: Seq<Seq<char>>,
    limit: nat,
)
    requires
        0 <= from <= lines.len(),
        are_frames_of(frames, lines, marks),
        frames.len() <= limit,
    ensures
        are_frames_of(with_lines(frames, lines.skip(from), marks, limit), lines, marks),
        with_lines(frames, lines.skip(from), marks, limit).len() <= limit,
    decreases lines.len() - from,
{
    let rest = lines.skip(from);
    if rest.len() > 0 && frames.len() < limit {
        let more = with_line(frames, rest.first(), marks);
        assert(rest.first() == lines[from]);
        assert(rest.drop_first() =~= lines.skip(from + 1));
        let frame = frame_of(text::trim(lines[from]));
        assert forall|i: int| 0 <= i < more.len() implies {
            &&& (#[trigger] more[i]).len() > 0
            &&& names_frame(lines, marks, more[i])
        } by {
            if i < frames.len() {
                assert(more[i] == frames[i]);
            }
        }
        assert forall|i: int, j: int| 0 <= i < more.len() && 0 <= j < more.len() && i != j implies
        more[i] != more[j] by {
            if i < frames.len() {
                assert(frames.contains(frames[i]));
            }
            if j < frames.len() {
                assert(frames.contains(frames[j]));
            }
        }
        lemma_with_lines(more, lines, from + 1, marks, limit);
    }
}

/// Joining texts of which the first is not empty gives a text that is not empty.
proof fn lemma_join_is_not_empty(parts: Seq<Seq<char>>, separator: Seq<char>)
    requires
        parts.len() > 0,
        parts[0].len() > 0,
    ensures
        text::join(parts, separator).len() > 0,
    decreases parts.len(),
{
    if parts.len() > 1 {
        lemma_join_is_not_empty(parts.drop_last(), separator);
    }
}

/// The frames of a signature are different from each other, none of them is empty,
/// each stands for a relevant line of the backtrace, and there are not more than
/// the limit.
pub proof fn law_frames_are_distinct_and_relevant(
    text: Seq<char>,
    marks: Seq<Seq<char>>,
    limit: nat,
)
    ensures
        are_frames_of(frames_of(text, marks, limit), text::lines(text), marks),
        frames_of(text, marks, limit).len() <= limit,
{
    let lines = text::lines(text);
    assert(lines.skip(0) =~= lines);
    lemma_with_lines(Seq::empty(), lines, 0, marks, limit);
}

/// A signature is never empty.
pub proof fn law_signatures_are_not_empty(text: Seq<char>, marks: Seq<Seq<char>>, limit: nat)
    ensures
        signature(text, marks, limit).len() > 0,
{
    law_frames_are_distinct_and_relevant(text, marks, limit);
    let frames = frames_of(text, marks, limit);
    if frames.len() > 0 {
        lemma_join_is_not_empty(frames, " <- "@);
    } else {
        reveal_strlit("<other>");
    }
}

/// The signature of a creation path that was captured is not empty.
pub proof fn lemma_creation_signatures_are_not_empty(created_at: Seq<char>)
    requires
        is_creation_signature(created_at),
    ensures
        created_at.len() > 0,
{
    let text = choose|text: Seq<char>|
        {
            &&& is_backtrace_text(text)
            &&& created_at == #[trigger] signature(
                text,
                creation_marks(),
                CREATION_FRAMES as nat,
            )
        };
    law_signatures_are_not_empty(text, creation_marks(), CREATION_FRAMES as nat);
}

/// A line is relevant exactly if one of the marks is a part of it.
pub proof fn law_relevant_lines_contain_a_mark(line: Seq<char>, marks: Seq<Seq<char>>)
    ensures
        is_relevant(line, marks) <==> exists|k: int, head: Seq<char>, tail: Seq<char>|
            0 <= k < marks.len() && line == #[trigger] (head + marks[k] + tail),
{
    if is_relevant(line, marks) {
        let k = choose|k: int| 0 <= k < marks.len() && text::contains(line, #[trigger] marks[k]);
        text::law_containing_is_having_a_part(line, marks[k]);
        let (head, tail) = choose|head: Seq<char>, tail: Seq<char>|
            line == #[trigger] (head + marks[k] + tail);
        assert(line == head + marks[k] + tail);
    }
    if exists|k: int, head: Seq<char>, tail: Seq<char>|
        0 <= k < marks.len() && line == #[trigger] (head + marks[k] + tail) {
        let (k, head, tail) = choose|k: int, head: Seq<char>, tail: Seq<char>|
            0 <= k < marks.len() && line == #[trigger] (head + marks[k] + tail);
        text::law_containing_is_having_a_part(line, marks[k]);
        assert(text::contains(line, marks[k]));
    }
}

/// The lines that name a `Dmabuf` creation path contain one of these twelve texts.
pub proof fn law_lines_of_a_creation_path(line: Seq<char>)
    ensures
        is_relevant(line, creation_marks()) <==> {
            ||| text::contains(line, "swapchain"@)
            ||| text::contains(line, "::export"@)
            ||| text::contains(line, "import_dmabuf"@)
            ||| text::contains(line, "dmabuf"@)
            ||| text::contains(line, "render_frame"@)
            ||| text::contains(line, "allow_frame_flags"@)
            ||| text::contains(line, "drm::compositor"@)
            ||| text::contains(line, "drm::output"@)
            ||| text::contains(line, "renderer::element::surface"@)
            ||| text::contains(line, "cosmic_comp"@)
            ||| text::contains(line, "WlBuffer"@)
            ||| text::contains(line, "import_buffer"@)
        },
{
    let marks = creation_marks();
    assert(marks[0] == "swapchain"@ && marks[1] == "::export"@ && marks[2] == "import_dmabuf"@);
    assert(marks[3] == "dmabuf"@ && marks[4] == "render_frame"@);
    assert(marks[5] == "allow_frame_flags"@ && marks[6] == "drm::compositor"@);
    assert(marks[7] == "drm::output"@ && marks[8] == "renderer::element::surface"@);
    assert(marks[9] == "cosmic_comp"@ && marks[10] == "WlBuffer"@);
    assert(marks[11] == "import_buffer"@);
}

/// The lines that name a slot's acquire path contain one of these nine texts.
pub proof fn law_lines_of_an_acquire_path(line: Seq<char>)
    ensures
        is_relevant(line, acquire_marks()) <==> {
            ||| text::contains(line, "cosmic_comp::backend::kms"@)
            ||| text::contains(line, "drm::output"@)
            ||| text::contains(line, "drm::compositor"@)
            ||| text::contains(line, "allow_frame_flags"@)
            ||| text::contains(line, "apply_config"@)
            ||| text::contains(line, "initialize_output"@)
            ||| text::contains(line, "use_mode"@)
            ||| text::contains(line, "try_to_restore"@)
            ||| text::contains(line, "submit_composited_frame"@)
        },
{
    let marks = acquire_marks();
    assert(marks[0] == "cosmic_comp::backend::kms"@ && marks[1] == "drm::output"@);
    assert(marks[2] == "drm::compositor"@ && marks[3] == "allow_frame_flags"@);
    assert(marks[4] == "apply_config"@ && marks[5] == "initialize_output"@);
    assert(marks[6] == "use_mode"@ && marks[7] == "try_to_restore"@);
    assert(marks[8] == "submit_composited_frame"@);
}

/// An occurrence with none before it is the one that is found.
proof fn lemma_find_at(text: Seq<char>, pattern: Seq<char>, i: int)
    requires
        text::occurs_at(text, pattern, i),
        forall|j: int| 0 <= j < i ==> !text::occurs_at(text, pattern, j),
    ensures
        text::find(text, pattern) == Some(i),
{
    text::lemma_find_from(text, pattern, 0);
}

/// An occurrence with none behind it is the one that is found from the end.
proof fn lemma_rfind_at(text: Seq<char>, pattern: Seq<char>, i: int)
    requires
        text::occurs_at(text, pattern, i),
        forall|j: int| i < j ==> !text::occurs_at(text, pattern, j),
    ensures
        text::rfind(text, pattern) == Some(i),
{
    text::lemma_rfind_upto(text, pattern, text.len() - pattern.len());
}

/// The symbol of a line starts behind its first colon with a space, or where the line
/// does, and ends before the first hash, or where the line does.
#[verifier::spinoff_prover]
pub proof fn law_symbols_stand_between_number_and_hash(
    head: Seq<char>,
    symbol: Seq<char>,
    hash: Seq<char>,
)
    requires
        !text::contains(head, ": "@),
        !text::contains(symbol, "::h"@),
    ensures
        symbol_of(head + ": "@ + symbol) == symbol,
        symbol_of(head + ": "@ + (symbol + "::h"@ + hash)) == symbol,
        !text::contains(symbol, ": "@) ==> symbol_of(symbol) == symbol,
        !text::contains(symbol + "::h"@ + hash, ": "@) ==> symbol_of(symbol + "::h"@ + hash)
            == symbol,
{
    reveal_strlit(": ");
    reveal_strlit("::h");
    let hashed = symbol + "::h"@ + hash;
    lemma_named(head, symbol);
    lemma_named(head, hashed);
    lemma_hashed(symbol, hash);
    text::lemma_find_from(symbol, "::h"@, 0);
    text::lemma_find_from(symbol, ": "@, 0);
    text::lemma_find_from(hashed, ": "@, 0);
}

/// What precedes the first hash.
proof fn lemma_hashed(symbol: Seq<char>, hash: Seq<char>)
    requires
        !text::contains(symbol, "::h"@),
    ensures
        text::find(symbol + "::h"@ + hash, "::h"@) == Some(symbol.len() as int),
        (symbol + "::h"@ + hash).take(symbol.len() as int) == symbol,
{
    reveal_strlit("::h");
    let hashed = symbol + "::h"@ + hash;
    assert(hashed.subrange(symbol.len() as int, symbol.len() as int + 3) =~= "::h"@);
    assert forall|j: int| 0 <= j < symbol.len() implies !text::occurs_at(hashed, "::h"@, j) by {
        if text::occurs_at(hashed, "::h"@, j) {
            let part = hashed.subrange(j, j + 3);
            assert(part[0] == ':' && part[1] == ':' && part[2] == 'h');
            assert(hashed[j + 2] == 'h');
            if j + 3 <= symbol.len() {
                assert(symbol.subrange(j, j + 3) =~= part);
                assert(text::occurs_at(symbol, "::h"@, j));
            } else if j + 2 == symbol.len() {
                assert(hashed[j + 2] == "::h"@[0]);
            } else {
                assert(hashed[j + 2] == "::h"@[1]);
            }
        }
    }
    lemma_find_at(hashed, "::h"@, symbol.len() as int);
    assert(hashed.take(symbol.len() as int) =~= symbol);
}

/// What follows the first colon with a space.
proof fn lemma_named(head: Seq<char>, named: Seq<char>)
    requires
        !text::contains(head, ": "@),
    ensures
        text::find(head + ": "@ + named, ": "@) == Some(head.len() as int),
        (head + ": "@ + named).skip(head.len() as int + 2) == named,
{
    reveal_strlit(": ");
    let line = head + ": "@ + named;
    assert(line.subrange(head.len() as int, head.len() as int + 2) =~= ": "@);
    assert forall|j: int| 0 <= j < head.len() implies !text::occurs_at(line, ": "@, j) by {
        if text::occurs_at(line, ": "@, j) {
            let part = line.subrange(j, j + 2);
            assert(part[0] == ':' && part[1] == ' ');
            assert(line[j + 1] == ' ');
            if j + 2 <= head.len() {
                assert(head.subrange(j, j + 2) =~= part);
                assert(text::occurs_at(head, ": "@, j));
            } else {
                assert(line[j + 1] == ": "@[0]);
            }
        }
    }
    lemma_find_at(line, ": "@, head.len() as int);
    assert(line.skip(head.len() as int + 2) =~= named);
}

/// What precedes the last separator.
proof fn lemma_last_separator(front: Seq<char>, name: Seq<char>)
    requires
        !text::contains(seq![':'] + name, "::"@),
    ensures
        text::rfind(front + "::"@ + name, "::"@) == Some(front.len() as int),
        (front + "::"@ + name).take(front.len() as int) == front,
        (front + "::"@ + name).skip(front.len() as int + 2) == name,
{
    reveal_strlit("::");
    let symbol = front + "::"@ + name;
    let n = front.len() as int;
    assert(symbol.subrange(n, n + 2) =~= "::"@);
    let tail = seq![':'] + name;
    assert forall|j: int| n < j implies !text::occurs_at(symbol, "::"@, j) by {
        if text::occurs_at(symbol, "::"@, j) {
            assert(tail.subrange(j - n - 1, j - n + 1) =~= symbol.subrange(j, j + 2));
            assert(text::occurs_at(tail, "::"@, j - n - 1));
        }
    }
    lemma_rfind_at(symbol, "::"@, n);
    assert(symbol.take(n) =~= front);
    assert(symbol.skip(n + 2) =~= name);
}

/// Of a symbol the last two components are kept, with the separator between them; a symbol
/// of one or two components is kept as it is.
pub proof fn law_two_components_are_kept(front: Seq<char>, module: Seq<char>, name: Seq<char>)
    requires
        !text::contains(seq![':'] + name, "::"@),
    ensures
        !text::contains(name, "::"@) ==> last_two_components(name) == name,
        !text::contains(module, "::"@) ==> last_two_components(module + "::"@ + name) == module
            + "::"@ + name,
        !text::contains(seq![':'] + module, "::"@) ==> last_two_components(
            front + "::"@ + module + "::"@ + name,
        ) == module + "::"@ + name,
{
    reveal_strlit("::");
    text::lemma_rfind_upto(name, "::"@, name.len() - 2);
    text::lemma_rfind_upto(module, "::"@, module.len() - 2);
    lemma_last_separator(module, name);
    let symbol = front + "::"@ + module + "::"@ + name;
    assert(symbol =~= (front + "::"@ + module) + "::"@ + name);
    lemma_last_separator(front + "::"@ + module, name);
    if !text::contains(seq![':'] + module, "::"@) {
        lemma_last_separator(front, module);
        assert(symbol.skip(front.len() as int + 2) =~= module + "::"@ + name);
    }
}

/// A line stands for the last two components of its symbol.
pub proof fn law_lines_stand_for_two_components(
    head: Seq<char>,
    front: Seq<char>,
    module: Seq<char>,
    name: Seq<char>,
    hash: Seq<char>,
)
    requires
        !text::contains(head, ": "@),
        !text::contains(seq![':'] + name, "::"@),
        !text::contains(seq![':'] + module, "::"@),
        !text::contains(front + "::"@ + module + "::"@ + name, "::h"@),
    ensures
        frame_of(head + ": "@ + (front + "::"@ + module + "::"@ + name)) == module + "::"@ + name,
        frame_of(head + ": "@ + (front + "::"@ + module + "::"@ + name + "::h"@ + hash)) == module
            + "::"@ + name,
{
    law_symbols_stand_between_number_and_hash(
        head,
        front + "::"@ + module + "::"@ + name,
        hash,
    );
    law_two_components_are_kept(front, module, name);
}

/// A line that counts: it is relevant, and its frame is not empty.
pub open spec fn names_something(line: Seq<char>, marks: Seq<Seq<char>>) -> bool {
    is_relevant(text::trim(line), marks) && frame_of(text::trim(line)).len() > 0
}

/// One of `frames` stands for the line `k`, and was first told by that line or by one
/// before it.
pub open spec fn is_told(
    at: Seq<int>,
    frames: Seq<Seq<char>>,
    lines: Seq<Seq<char>>,
    k: int,
) -> bool {
    exists|i: int|
        0 <= i < at.len() && #[trigger] at[i] <= k && frames[i] == frame_of(text::trim(lines[k]))
}

/// `frames` are told by the lines `at`, which count and stand in order. The frames are
/// different from each other. Every line before the `upto`th that counts has its frame
/// among them.
pub open spec fn told_by(
    at: Seq<int>,
    frames: Seq<Seq<char>>,
    lines: Seq<Seq<char>>,
    marks: Seq<Seq<char>>,
    upto: int,
) -> bool {
    &&& at.len() == frames.len()
    &&& forall|i: int|
        0 <= i < at.len() ==> {
            &&& 0 <= #[trigger] at[i] < upto
            &&& names_something(lines[at[i]], marks)
            &&& frames[i] == frame_of(text::trim(lines[at[i]]))
        }
    &&& forall|i: int, j: int|
        0 <= i < j < at.len() ==> #[trigger] at[i] < #[trigger] at[j] && frames[i] != frames[j]
    &&& forall|k: int|
        0 <= k < upto && names_something(#[trigger] lines[k], marks) ==> is_told(
            at,
            frames,
            lines,
            k,
        )
}

/// The lines from `from` on go on telling the frames.
#[verifier::spinoff_prover]
proof fn lemma_lines_tell_frames(
    at: Seq<int>,
    frames: Seq<Seq<char>>,
    lines: Seq<Seq<char>>,
    from: int,
    marks: Seq<Seq<char>>,
    limit: nat,
) -> (upto: int)
    requires
        0 <= from <= lines.len(),
        frames.len() <= limit,
        told_by(at, frames, lines, marks, from),
    ensures
        from <= upto <= lines.len(),
        with_lines(frames, lines.skip(from), marks, limit).len() <= limit,
        exists|all: Seq<int>| #[trigger]
            told_by(all, with_lines(frames, lines.skip(from), marks, limit), lines, marks, upto),
        with_lines(frames, lines.skip(from), marks, limit).len() < limit ==> upto == lines.len(),
    decreases lines.len() - from,
{
    let rest = lines.skip(from);
    if rest.len() == 0 || frames.len() >= limit {
        from
    } else {
        let line = lines[from];
        assert(rest.first() == line);
        assert(rest.drop_first() =~= lines.skip(from + 1));
        let frame = frame_of(text::trim(line));
        let more = with_line(frames, line, marks);
        let longer = if names_something(line, marks) && !frames.contains(frame) {
            at.push(from)
        } else {
            at
        };
        if names_something(line, marks) && !frames.contains(frame) {
            assert forall|i: int, j: int| 0 <= i < j < longer.len() implies
            #[trigger] longer[i] < #[trigger] longer[j] && more[i] != more[j] by {
                assert(longer[i] == at[i]);
                assert(frames.contains(frames[i]));
            }
        }
        assert forall|k: int|
            0 <= k < from + 1 && names_something(#[trigger] lines[k], marks) implies is_told(
            longer,
            more,
            lines,
            k,
        ) by {
            if k < from {
                assert(is_told(at, frames, lines, k));
                let i = choose|i: int|
                    0 <= i < at.len() && #[trigger] at[i] <= k && frames[i] == frame_of(
                        text::trim(lines[k]),
                    );
                assert(longer[i] == at[i] && more[i] == frames[i]);
            } else if frames.contains(frame) {
                let i = choose|i: int| 0 <= i < frames.len() && frames[i] == frame;
                assert(longer[i] == at[i]);
            } else {
                assert(longer[at.len() as int] == from);
            }
        }
        assert forall|i: int| 0 <= i < longer.len() implies {
            &&& 0 <= #[trigger] longer[i] < from + 1
            &&& names_something(lines[longer[i]], marks)
            &&& more[i] == frame_of(text::trim(lines[longer[i]]))
        } by {
            if i < at.len() {
                assert(longer[i] == at[i]);
            }
        }
        assert(told_by(longer, more, lines, marks, from + 1));
        lemma_lines_tell_frames(longer, more, lines, from + 1, marks, limit)
    }
}

/// The frames of a backtrace are those of the lines that count, each frame once, in the
/// order of the lines, from the first line on and up to the limit: no frame of an earlier
/// line is missing, and if there are fewer frames than the limit, none of any line is.
#[verifier::spinoff_prover]
pub proof fn law_frames_are_the_first_of_all_lines(
    text: Seq<char>,
    marks: Seq<Seq<char>>,
    limit: nat,
)
    ensures
        frames_of(text, marks, limit).len() <= limit,
        exists|at: Seq<int>, upto: int|
            {
                &&& 0 <= upto <= text::lines(text).len()
                &&& #[trigger] told_by(
                    at,
                    frames_of(text, marks, limit),
                    text::lines(text),
                    marks,
                    upto,
                )
                &&& frames_of(text, marks, limit).len() < limit ==> upto == text::lines(text).len()
            },
{
    let lines = text::lines(text);
    assert(lines.skip(0) =~= lines);
    assert(told_by(Seq::empty(), Seq::empty(), lines, marks, 0));
    let upto = lemma_lines_tell_frames(Seq::empty(), Seq::empty(), lines, 0, marks, limit);
    let at = choose|at: Seq<int>| #[trigger]
        told_by(at, frames_of(text, marks, limit), lines, marks, upto);
    assert(told_by(at, frames_of(text, marks, limit), lines, marks, upto));
}

/// If a backtrace has fewer frames than the limit, every line that contains a mark and
/// whose frame is not empty has its frame among them.
#[verifier::spinoff_prover]
pub proof fn law_no_relevant_line_is_missing(
    text: Seq<char>,
    marks: Seq<Seq<char>>,
    limit: nat,
    k: int,
)
    requires
        frames_of(text, marks, limit).len() < limit,
        0 <= k < text::lines(text).len(),
        is_relevant(text::trim(text::lines(text)[k]), marks),
        frame_of(text::trim(text::lines(text)[k])).len() > 0,
    ensures
        frames_of(text, marks, limit).contains(frame_of(text::trim(text::lines(text)[k]))),
{
    let lines = text::lines(text);
    let frames = frames_of(text, marks, limit);
    law_frames_are_the_first_of_all_lines(text, marks, limit);
    let (at, upto) = choose|at: Seq<int>, upto: int|
        {
            &&& 0 <= upto <= lines.len()
            &&& #[trigger] told_by(at, frames, lines, marks, upto)
            &&& frames.len() < limit ==> upto == lines.len()
        };
    assert(names_something(lines[k], marks));
    assert(is_told(at, frames, lines, k));
    let i = choose|i: int|
        0 <= i < at.len() && #[trigger] at[i] <= k && frames[i] == frame_of(text::trim(lines[k]));
    assert(frames[i] == frame_of(text::trim(lines[k])));
}

/// Lines that do not count change nothing, wherever they stand: the frames are those of
/// the other lines.
pub proof fn law_lines_that_do_not_count_are_skipped(
    frames: Seq<Seq<char>>,
    before: Seq<Seq<char>>,
    line: Seq<char>,
    after: Seq<Seq<char>>,
    marks: Seq<Seq<char>>,
    limit: nat,
)
    requires
        !(is_relevant(text::trim(line), marks) && frame_of(text::trim(line)).len() > 0),
    ensures
        with_lines(frames, before + seq![line] + after, marks, limit) == with_lines(
            frames,
            before + after,
            marks,
            limit,
        ),
    decreases before.len(),
{
    let all = before + seq![line] + after;
    let fewer = before + after;
    if before.len() == 0 {
        assert(all.first() == line);
        assert(all.drop_first() =~= after);
        assert(fewer =~= after);
    } else {
        assert(all.first() == before.first() && fewer.first() == before.first());
        assert(all.drop_first() =~= before.drop_first() + seq![line] + after);
        assert(fewer.drop_first() =~= before.drop_first() + after);
        law_lines_that_do_not_count_are_skipped(
            with_line(frames, before.first(), marks),
            before.drop_first(),
            line,
            after,
            marks,
            limit,
        );
    }
}

/// A signature is its frames with arrows between them, or says that there are none.
pub proof fn law_signatures_are_their_frames(text: Seq<char>, marks: Seq<Seq<char>>, limit: nat)
    ensures
        frames_of(text, marks, limit).len() == 0 ==> signature(text, marks, limit) == seq![
            '<',
            'o',
            't',
            'h',
            'e',
            'r',
            '>',
        ],
        frames_of(text, marks, limit).len() > 0 ==> signature(text, marks, limit) == text::join(
            frames_of(text, marks, limit),
            seq![' ', '<', '-', ' '],
        ),
{
    reveal_strlit("<other>");
    reveal_strlit(" <- ");
    assert("<other>"@ =~= seq!['<', 'o', 't', 'h', 'e', 'r', '>']);
    assert(" <- "@ =~= seq![' ', '<', '-', ' ']);
}

/// The signature of a captured creation path is that of the text that a captured backtrace
/// was rendered to, and lists the first six frames of that text.
pub proof fn law_creation_signatures_are_captured(created_at: Seq<char>)
    requires
        is_creation_signature(created_at),
    ensures
        exists|captured: Backtrace, rendered: String|
            {
                &&& call_ensures(Backtrace::force_capture, (), captured)
                &&& #[trigger] call_ensures(backtrace::symbolise, (&captured,), rendered)
                &&& created_at == signature(rendered@, creation_marks(), 6)
            },
{
    let text = choose|text: Seq<char>|
        {
            &&& is_backtrace_text(text)
            &&& created_at == #[trigger] signature(
                text,
                creation_marks(),
                CREATION_FRAMES as nat,
            )
        };
    let (captured, rendered) = choose|captured: Backtrace, rendered: String|
        {
            &&& backtrace::is_capture(captured)
            &&& #[trigger] backtrace::is_rendering(captured, rendered)
            &&& text == rendered@
        };
    assert(call_ensures(backtrace::symbolise, (&captured,), rendered));
}

/// The signature of a captured acquire path is that of the text that a captured backtrace
/// was rendered to, and lists the first five frames of that text.
pub proof fn law_acquire_signatures_are_captured(acquired_at: Seq<char>)
    requires
        is_acquire_signature(acquired_at),
    ensures
        exists|captured: Backtrace, rendered: String|
            {
                &&& call_ensures(Backtrace::force_capture, (), captured)
                &&& #[trigger] call_ensures(backtrace::symbolise, (&captured,), rendered)
                &&& acquired_at == signature(rendered@, acquire_marks(), 5)
            },
{
    let text = choose|text: Seq<char>|
        {
            &&& is_backtrace_text(text)
            &&& acquired_at == #[trigger] signature(text, acquire_marks(), ACQUIRE_FRAMES as nat)
        };
    let (captured, rendered) = choose|captured: Backtrace, rendered: String|
        {
            &&& backtrace::is_capture(captured)
            &&& #[trigger] backtrace::is_rendering(captured, rendered)
            &&& text == rendered@
        };
    assert(call_ensures(backtrace::symbolise, (&captured,), rendered));
}

/// A line of any shape stands for the last two components of the symbol that it names. What
/// stands for a line is a part of it.
pub proof fn law_frames_are_shortened_symbols(line: Seq<char>)
    ensures
        frame_of(line) == last_two_components(symbol_of(line)),
        text::contains(line, frame_of(line)),
{
    reveal_strlit(": ");
    reveal_strlit("::h");
    reveal_strlit("::");
    text::lemma_find_from(line, ": "@, 0);
    let named = match text::find(line, ": "@) {
        Some(i) => line.skip(i + 2),
        None => line,
    };
    text::lemma_find_from(named, "::h"@, 0);
    let symbol = symbol_of(line);
    text::lemma_rfind_upto(symbol, "::"@, symbol.len() - 2);
    let frame = frame_of(line);
    let start = line.len() - named.len();
    assert(line.skip(start) =~= named);
    assert(named.take(symbol.len() as int) =~= symbol);
    if let Some(last) = text::rfind(symbol, "::"@) {
        text::lemma_rfind_upto(symbol.take(last), "::"@, last - 2);
    }
    let cut = symbol.len() - frame.len();
    assert(symbol.skip(cut) =~= frame);
    let at = start + cut;
    assert(line.subrange(at, at + frame.len()) =~= frame);
    assert(text::occurs_at(line, frame, at));
}

} // verus!
