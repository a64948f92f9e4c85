//! Bounded reading of Valve's key-value text.
use crate::text;
use vstd::prelude::*;
use vstd::slice::slice_subrange;
use vstd::string::*;

verus! {

broadcast use vstd::string::group_string_axioms;

pub const MAX_VDF_BYTES: u64 = 1_048_576;

pub const MAX_VDF_DEPTH: usize = 16;

pub const MAX_VDF_ENTRIES: usize = 16_384;

pub const MAX_VDF_TOKEN_BYTES: usize = 65_536;

pub const QUOTE: u8 = 34;

pub const BACKSLASH: u8 = 92;

pub const SLASH: u8 = 47;

pub const LINE_FEED: u8 = 10;

pub const OPEN_BRACE: u8 = 123;

pub const CLOSE_BRACE: u8 = 125;

/// Keys with their values, in order. A key may occur more than once.
#[derive(Debug)]
pub struct VdfObject {
    entries: Vec<(String, VdfValue)>,
}

#[derive(Debug)]
pub enum VdfValue {
    Text(String),
    Object(VdfObject),
}

/// What a [`VdfValue`] holds.
pub ghost enum VdfNode {
    Text(Seq<char>),
    Object(Seq<(Seq<char>, VdfNode)>),
}

pub closed spec fn node_of(value: VdfValue) -> VdfNode
    decreases value,
{
    match value {
        VdfValue::Text(text) => VdfNode::Text(text@),
        VdfValue::Object(object) => VdfNode::Object(nodes_of(object.entries@)),
    }
}

pub closed spec fn nodes_of(entries: Seq<(String, VdfValue)>) -> Seq<(Seq<char>, VdfNode)>
    decreases entries,
{
    if entries.len() == 0 {
        Seq::empty()
    } else {
        nodes_of(entries.drop_last()).push((entries.last().0@, node_of(entries.last().1)))
    }
}

impl View for VdfObject {
    type V = Seq<(Seq<char>, VdfNode)>;

    closed spec fn view(&self) -> Seq<(Seq<char>, VdfNode)> {
        nodes_of(self.entries@)
    }
}

proof fn lemma_nodes(entries: Seq<(String, VdfValue)>)
    ensures
        nodes_of(entries).len() == entries.len(),
        forall|i: int|
            0 <= i < entries.len() ==> #[trigger] nodes_of(entries)[i] == (
                entries[i].0@,
                node_of(entries[i].1),
            ),
    decreases entries.len(),
{
    if entries.len() > 0 {
        let short = entries.drop_last();
        lemma_nodes(short);
        assert forall|i: int| 0 <= i < entries.len() implies #[trigger] nodes_of(entries)[i] == (
            entries[i].0@,
            node_of(entries[i].1),
        ) by {
            if i < short.len() {
                assert(nodes_of(entries)[i] == nodes_of(short)[i]);
                assert(short[i] == entries[i]);
            }
        }
    }
}

/// Whether a byte is white space between tokens.
pub open spec fn is_blank(byte: u8) -> bool {
    byte == 32 || byte == 9 || byte == 10 || byte == 12 || byte == 13
}

fn is_blank_byte(byte: u8) -> (result: bool)
    ensures
        result == is_blank(byte),
{
    byte == 32 || byte == 9 || byte == 10 || byte == 12 || byte == 13
}

/// What is left at the end of a line.
pub open spec fn at_line_end(rest: Seq<u8>) -> Seq<u8>
    decreases rest.len(),
{
    if rest.len() > 0 && rest[0] != LINE_FEED {
        at_line_end(rest.skip(1))
    } else {
        rest
    }
}

pub proof fn lemma_line_end_shrinks(rest: Seq<u8>)
    ensures
        at_line_end(rest).len() <= rest.len(),
    decreases rest.len(),
{
    if rest.len() > 0 && rest[0] != LINE_FEED {
        lemma_line_end_shrinks(rest.skip(1));
    }
}

/// What is left behind white space and comments.
pub open spec fn skipped(rest: Seq<u8>) -> Seq<u8>
    decreases rest.len(),
{
    if rest.len() > 0 && is_blank(rest[0]) {
        skipped(rest.skip(1))
    } else if rest.len() >= 2 && rest[0] == SLASH && rest[1] == SLASH {
        proof {
            lemma_line_end_shrinks(rest.skip(2));
        }
        skipped(at_line_end(rest.skip(2)))
    } else {
        rest
    }
}

pub proof fn lemma_skipped_shrinks(rest: Seq<u8>)
    ensures
        skipped(rest).len() <= rest.len(),
        skipped(skipped(rest)) == skipped(rest),
    decreases rest.len(),
{
    if rest.len() > 0 && is_blank(rest[0]) {
        lemma_skipped_shrinks(rest.skip(1));
    } else if rest.len() >= 2 && rest[0] == SLASH && rest[1] == SLASH {
        lemma_line_end_shrinks(rest.skip(2));
        lemma_skipped_shrinks(at_line_end(rest.skip(2)));
    }
}

/// The content of a quoted token whose start was read into `done`, and what
/// is left behind its closing quote. A backslash keeps itself unless it
/// stands before a quote or another backslash.
pub open spec fn quoted(rest: Seq<u8>, done: Seq<u8>) -> Option<(Seq<u8>, Seq<u8>)>
    decreases rest.len(),
{
    if rest.len() == 0 {
        None
    } else if rest[0] == QUOTE {
        Some((done, rest.skip(1)))
    } else if rest[0] == BACKSLASH {
        if rest.len() < 2 {
            None
        } else {
            let longer = if rest[1] == QUOTE || rest[1] == BACKSLASH {
                done.push(rest[1])
            } else {
                done.push(BACKSLASH).push(rest[1])
            };
            if longer.len() > MAX_VDF_TOKEN_BYTES {
                None
            } else {
                quoted(rest.skip(2), longer)
            }
        }
    } else if done.len() + 1 > MAX_VDF_TOKEN_BYTES {
        None
    } else {
        quoted(rest.skip(1), done.push(rest[0]))
    }
}

proof fn lemma_quoted_shrinks(rest: Seq<u8>, done: Seq<u8>)
    ensures
        quoted(rest, done) matches Some((_, after)) ==> after.len() < rest.len(),
    decreases rest.len(),
{
    if rest.len() == 0 || rest[0] == QUOTE {
    } else if rest[0] == BACKSLASH {
        if rest.len() >= 2 {
            let longer = if rest[1] == QUOTE || rest[1] == BACKSLASH {
                done.push(rest[1])
            } else {
                done.push(BACKSLASH).push(rest[1])
            };
            lemma_quoted_shrinks(rest.skip(2), longer);
        }
    } else {
        lemma_quoted_shrinks(rest.skip(1), done.push(rest[0]));
    }
}

/// How many bytes a bare token at the front has.
pub open spec fn bare_length(rest: Seq<u8>) -> nat
    decreases rest.len(),
{
    if rest.len() > 0 && !is_blank(rest[0]) && rest[0] != OPEN_BRACE && rest[0] != CLOSE_BRACE {
        bare_length(rest.skip(1)) + 1
    } else {
        0
    }
}

proof fn lemma_bare_length(rest: Seq<u8>)
    ensures
        bare_length(rest) <= rest.len(),
    decreases rest.len(),
{
    if rest.len() > 0 {
        lemma_bare_length(rest.skip(1));
    }
}

/// The bytes of a token behind white space and comments, and what is left.
pub open spec fn token_bytes(rest: Seq<u8>) -> Option<(Seq<u8>, Seq<u8>)> {
    let front = skipped(rest);
    if front.len() > 0 && front[0] == QUOTE {
        quoted(front.skip(1), Seq::empty())
    } else {
        let length = bare_length(front);
        if length == 0 || length > MAX_VDF_TOKEN_BYTES {
            None
        } else {
            Some((front.take(length as int), front.skip(length as int)))
        }
    }
}

/// A token behind white space and comments, and what is left.
pub open spec fn token(rest: Seq<u8>) -> Option<(Seq<char>, Seq<u8>)> {
    match token_bytes(rest) {
        None => None,
        Some((bytes, after)) => if vstd::utf8::valid_utf8(bytes) {
            Some((vstd::utf8::decode_utf8(bytes), after))
        } else {
            None
        },
    }
}

pub proof fn lemma_token_shrinks(rest: Seq<u8>)
    ensures
        token(rest) matches Some((_, after)) ==> after.len() < rest.len(),
{
    let front = skipped(rest);
    lemma_skipped_shrinks(rest);
    if front.len() > 0 && front[0] == QUOTE {
        lemma_quoted_shrinks(front.skip(1), Seq::empty());
    } else {
        lemma_bare_length(front);
    }
}

/// Entries read so far, what is left, and how many entries the whole
/// document has up to there.
pub ghost struct Parsed {
    pub entries: Seq<(Seq<char>, VdfNode)>,
    pub rest: Seq<u8>,
    pub count: nat,
}

/// The entries of an object at a depth, continued behind those in `done`. An
/// inner object ends with its closing brace, the outermost with the text.
pub open spec fn entries_from(
    rest: Seq<u8>,
    depth: nat,
    closed: bool,
    count: nat,
    done: Seq<(Seq<char>, VdfNode)>,
) -> Option<Parsed>
    decreases rest.len(),
{
    let front = skipped(rest);
    if front.len() == 0 {
        if closed {
            None
        } else {
            Some(Parsed { entries: done, rest: front, count })
        }
    } else if front[0] == CLOSE_BRACE {
        if closed {
            Some(Parsed { entries: done, rest: front.skip(1), count })
        } else {
            None
        }
    } else {
        proof {
            lemma_skipped_shrinks(rest);
            lemma_token_shrinks(front);
        }
        match token(front) {
            None => None,
            Some((key, behind_key)) => {
                let value = skipped(behind_key);
                proof {
                    lemma_skipped_shrinks(behind_key);
                    lemma_token_shrinks(value);
                }
                if value.len() > 0 && value[0] == OPEN_BRACE {
                    if depth + 1 > MAX_VDF_DEPTH {
                        None
                    } else {
                        match entries_from(value.skip(1), depth + 1, true, count, Seq::empty()) {
                            None => None,
                            Some(inner) => if inner.count + 1 > MAX_VDF_ENTRIES || inner.rest.len()
                                >= rest.len() {
                                None
                            } else {
                                entries_from(
                                    inner.rest,
                                    depth,
                                    closed,
                                    inner.count + 1,
                                    done.push((key, VdfNode::Object(inner.entries))),
                                )
                            },
                        }
                    }
                } else {
                    match token(value) {
                        None => None,
                        Some((text, behind_text)) => if count + 1 > MAX_VDF_ENTRIES {
                            None
                        } else {
                            entries_from(
                                behind_text,
                                depth,
                                closed,
                                count + 1,
                                done.push((key, VdfNode::Text(text))),
                            )
                        },
                    }
                }
            },
        }
    }
}

/// What reading leaves is never longer than what there was.
proof fn lemma_entries_shrink(
    rest: Seq<u8>,
    depth: nat,
    closed: bool,
    count: nat,
    done: Seq<(Seq<char>, VdfNode)>,
)
    ensures
        entries_from(rest, depth, closed, count, done) matches Some(parsed) ==> parsed.rest.len()
            <= rest.len(),
    decreases rest.len(),
{
    let front = skipped(rest);
    lemma_skipped_shrinks(rest);
    lemma_token_shrinks(front);
    if front.len() > 0 && front[0] != CLOSE_BRACE {
        if let Some((key, behind_key)) = token(front) {
            let value = skipped(behind_key);
            lemma_skipped_shrinks(behind_key);
            lemma_token_shrinks(value);
            if value.len() > 0 && value[0] == OPEN_BRACE {
                if depth + 1 <= MAX_VDF_DEPTH {
                    lemma_entries_shrink(value.skip(1), depth + 1, true, count, Seq::empty());
                    if let Some(inner) = entries_from(
                        value.skip(1),
                        depth + 1,
                        true,
                        count,
                        Seq::empty(),
                    ) {
                        if inner.count + 1 <= MAX_VDF_ENTRIES {
                            lemma_entries_shrink(
                                inner.rest,
                                depth,
                                closed,
                                inner.count + 1,
                                done.push((key, VdfNode::Object(inner.entries))),
                            );
                        }
                    }
                }
            } else if let Some((text, behind_text)) = token(value) {
                if count + 1 <= MAX_VDF_ENTRIES {
                    lemma_entries_shrink(
                        behind_text,
                        depth,
                        closed,
                        count + 1,
                        done.push((key, VdfNode::Text(text))),
                    );
                }
            }
        }
    }
}

/// The entries of a whole document.
pub open spec fn document(input: Seq<u8>) -> Option<Seq<(Seq<char>, VdfNode)>> {
    match entries_from(input, 0, false, 0, Seq::empty()) {
        None => None,
        Some(parsed) => if skipped(parsed.rest).len() == 0 {
            Some(parsed.entries)
        } else {
            None
        },
    }
}

/// Moves behind white space and comments.
fn skip_space_and_comments(input: &[u8], start: usize) -> (position: usize)
    requires
        start <= input@.len(),
    ensures
        start <= position <= input@.len(),
        input@.skip(position as int) == skipped(input@.skip(start as int)),
{
    let mut position: usize = start;
    loop
        invariant
            start <= position <= input@.len(),
            skipped(input@.skip(position as int)) == skipped(input@.skip(start as int)),
        ensures
            start <= position <= input@.len(),
            input@.skip(position as int) == skipped(input@.skip(start as int)),
        decreases input@.len() - position,
    {
        let ghost rest = input@.skip(position as int);
        if position < input.len() && is_blank_byte(input[position]) {
            assert(rest[0] == input@[position as int]);
            assert(rest.skip(1) =~= input@.skip(position + 1));
            position = position + 1;
        } else if input.len() - position >= 2 && input[position] == SLASH && input[position + 1]
            == SLASH {
            assert(rest[0] == input@[position as int]);
            assert(rest[1] == input@[position + 1]);
            assert(rest.skip(2) =~= input@.skip(position + 2));
            let ghost comment = input@.skip(position + 2);
            let ghost before = position;
            position = position + 2;
            while position < input.len() && input[position] != LINE_FEED
                invariant
                    start <= before < position <= input@.len(),
                    at_line_end(comment) == at_line_end(input@.skip(position as int)),
                decreases input@.len() - position,
            {
                assert(input@.skip(position as int)[0] == input@[position as int]);
                assert(input@.skip(position as int).skip(1) =~= input@.skip(position + 1));
                position = position + 1;
            }
            assert(position < input@.len() ==> input@.skip(position as int)[0]
                == input@[position as int]);
        } else {
            assert(position < input@.len() ==> rest[0] == input@[position as int]);
            assert(position + 1 < input@.len() ==> rest[1] == input@[position + 1]);
            break;
        }
    }
    position
}

/// Reads a quoted token behind its opening quote.
fn parse_quoted(input: &[u8], start: usize) -> (result: Option<(Vec<u8>, usize)>)
    requires
        start <= input@.len(),
    ensures
        match result {
            Some((bytes, position)) => start <= position <= input@.len() && quoted(
                input@.skip(start as int),
                Seq::empty(),
            ) == Some((bytes@, input@.skip(position as int))),
            None => quoted(input@.skip(start as int), Seq::empty()) is None,
        },
{
    let ghost whole = quoted(input@.skip(start as int), Seq::empty());
    let mut position: usize = start;
    let mut output: Vec<u8> = Vec::new();
    assert(output@ =~= Seq::<u8>::empty());
    while position < input.len()
        invariant
            start <= position <= input@.len(),
            output@.len() <= MAX_VDF_TOKEN_BYTES,
            whole == quoted(input@.skip(start as int), Seq::empty()),
            whole == quoted(input@.skip(position as int), output@),
        decreases input@.len() - position,
    {
        let ghost rest = input@.skip(position as int);
        let ghost done = output@;
        assert(rest[0] == input@[position as int]);
        let byte: u8 = input[position];
        if byte == QUOTE {
            assert(rest.skip(1) =~= input@.skip(position + 1));
            return Some((output, position + 1));
        }
        if byte == BACKSLASH {
            if position + 1 >= input.len() {
                return None;
            }
            let escaped: u8 = input[position + 1];
            assert(rest[1] == escaped);
            assert(rest.skip(2) =~= input@.skip(position + 2));
            if escaped != QUOTE && escaped != BACKSLASH {
                output.push(BACKSLASH);
            }
            output.push(escaped);
            position = position + 2;
        } else {
            assert(rest.skip(1) =~= input@.skip(position + 1));
            output.push(byte);
            position = position + 1;
        }
        if output.len() > MAX_VDF_TOKEN_BYTES {
            return None;
        }
    }
    None
}

/// Counts the bytes of a bare token.
fn find_bare_end(input: &[u8], start: usize) -> (position: usize)
    requires
        start <= input@.len(),
    ensures
        start <= position <= input@.len(),
        position - start == bare_length(input@.skip(start as int)),
{
    let mut position: usize = start;
    while position < input.len() && !is_blank_byte(input[position]) && input[position] != OPEN_BRACE
        && input[position] != CLOSE_BRACE
        invariant
            start <= position <= input@.len(),
            bare_length(input@.skip(start as int)) == (position - start) + bare_length(
                input@.skip(position as int),
            ),
        decreases input@.len() - position,
    {
        assert(input@.skip(position as int)[0] == input@[position as int]);
        assert(input@.skip(position as int).skip(1) =~= input@.skip(position + 1));
        position = position + 1;
    }
    assert(position < input@.len() ==> input@.skip(position as int)[0] == input@[position as int]);
    position
}

fn parse_token(input: &[u8], start: usize) -> (result: Option<(String, usize)>)
    requires
        start <= input@.len(),
    ensures
        match result {
            Some((text, position)) => start < position <= input@.len() && token(
                input@.skip(start as int),
            ) == Some((text@, input@.skip(position as int))),
            None => token(input@.skip(start as int)) is None,
        },
{
    proof {
        lemma_token_shrinks(input@.skip(start as int));
    }
    let front: usize = skip_space_and_comments(input, start);
    let ghost rest = input@.skip(front as int);
    if front < input.len() && input[front] == QUOTE {
        assert(rest[0] == input@[front as int]);
        assert(rest.skip(1) =~= input@.skip(front + 1));
        match parse_quoted(input, front + 1) {
            None => None,
            Some((bytes, position)) => match text::decode(bytes.as_slice()) {
                None => None,
                Some(decoded) => Some((decoded, position)),
            },
        }
    } else {
        assert(front < input@.len() ==> rest[0] == input@[front as int]);
        let end: usize = find_bare_end(input, front);
        if end == front || end - front > MAX_VDF_TOKEN_BYTES {
            return None;
        }
        let bytes = slice_subrange(input, front, end);
        assert(bytes@ =~= rest.take(end - front));
        assert(rest.skip(end - front) =~= input@.skip(end as int));
        match text::decode(bytes) {
            None => None,
            Some(decoded) => Some((decoded, end)),
        }
    }
}

fn parse_entries(input: &[u8], start: usize, depth: usize, closed: bool, counted: usize) -> (result:
    Option<(VdfObject, usize, usize)>)
    requires
        start <= input@.len(),
        depth <= MAX_VDF_DEPTH,
        counted <= MAX_VDF_ENTRIES,
    ensures
        match result {
            Some((object, position, count)) => {
                &&& start <= position <= input@.len()
                &&& count <= MAX_VDF_ENTRIES
                &&& entries_from(
                    input@.skip(start as int),
                    depth as nat,
                    closed,
                    counted as nat,
                    Seq::empty(),
                ) == Some(
                    Parsed {
                        entries: object@,
                        rest: input@.skip(position as int),
                        count: count as nat,
                    },
                )
            },
            None => entries_from(
                input@.skip(start as int),
                depth as nat,
                closed,
                counted as nat,
                Seq::empty(),
            ) is None,
        },
    decreases MAX_VDF_DEPTH - depth,
{
    let ghost whole = entries_from(
        input@.skip(start as int),
        depth as nat,
        closed,
        counted as nat,
        Seq::empty(),
    );
    let mut entries: Vec<(String, VdfValue)> = Vec::new();
    let mut position: usize = start;
    let mut count: usize = counted;
    assert(nodes_of(entries@) =~= Seq::<(Seq<char>, VdfNode)>::empty());
    loop
        invariant
            start <= position <= input@.len(),
            depth <= MAX_VDF_DEPTH,
            count <= MAX_VDF_ENTRIES,
            whole == entries_from(
                input@.skip(start as int),
                depth as nat,
                closed,
                counted as nat,
                Seq::empty(),
            ),
            whole == entries_from(
                input@.skip(position as int),
                depth as nat,
                closed,
                count as nat,
                nodes_of(entries@),
            ),
        decreases input@.len() - position,
    {
        let ghost rest = input@.skip(position as int);
        let ghost before = position;
        let front: usize = skip_space_and_comments(input, position);
        if front == input.len() {
            if closed {
                return None;
            }
            return Some((VdfObject { entries }, front, count));
        }
        assert(input@.skip(front as int)[0] == input@[front as int]);
        if input[front] == CLOSE_BRACE {
            if !closed {
                return None;
            }
            assert(input@.skip(front as int).skip(1) =~= input@.skip(front + 1));
            return Some((VdfObject { entries }, front + 1, count));
        }
        let (key, behind_key) = match parse_token(input, front) {
            None => {
                return None;
            },
            Some(parsed) => parsed,
        };
        let value_start: usize = skip_space_and_comments(input, behind_key);
        assert(value_start < input@.len() ==> input@.skip(value_start as int)[0]
            == input@[value_start as int]);
        let ghost done = entries@;
        if value_start < input.len() && input[value_start] == OPEN_BRACE {
            assert(input@.skip(value_start as int).skip(1) =~= input@.skip(value_start + 1));
            if depth + 1 > MAX_VDF_DEPTH {
                return None;
            }
            match parse_entries(input, value_start + 1, depth + 1, true, count) {
                None => {
                    return None;
                },
                Some((object, behind_object, inner_count)) => {
                    if inner_count + 1 > MAX_VDF_ENTRIES {
                        return None;
                    }
                    let ghost node = VdfNode::Object(object@);
                    assert(node_of(VdfValue::Object(object)) == node);
                    let ghost name = key@;
                    entries.push((key, VdfValue::Object(object)));
                    assert(entries@.drop_last() =~= done);
                    assert(nodes_of(entries@) == nodes_of(done).push((name, node)));
                    position = behind_object;
                    count = inner_count + 1;
                },
            }
        } else {
            match parse_token(input, value_start) {
                None => {
                    return None;
                },
                Some((value, behind_value)) => {
                    if count + 1 > MAX_VDF_ENTRIES {
                        return None;
                    }
                    let ghost node = VdfNode::Text(value@);
                    assert(node_of(VdfValue::Text(value)) == node);
                    let ghost name = key@;
                    entries.push((key, VdfValue::Text(value)));
                    assert(entries@.drop_last() =~= done);
                    assert(nodes_of(entries@) == nodes_of(done).push((name, node)));
                    position = behind_value;
                    count = count + 1;
                },
            }
        }
    }
}

/// Reads a document.
pub fn parse(input: &str) -> (result: Option<VdfObject>)
    ensures
        match result {
            Some(object) => document(input.spec_bytes()) == Some(object@),
            None => document(input.spec_bytes()) is None,
        },
{
    let bytes = input.as_bytes();
    assert(bytes@.skip(0) =~= bytes@);
    match parse_entries(bytes, 0, 0, false, 0) {
        None => None,
        Some((object, position, _)) => {
            let end: usize = skip_space_and_comments(bytes, position);
            if end == bytes.len() {
                Some(object)
            } else {
                None
            }
        },
    }
}

/// Whether a key is looked for under a name.
pub open spec fn is_named(key: Seq<char>, name: Seq<char>, exact: bool) -> bool {
    if exact {
        key == name
    } else {
        text::alike(key, name)
    }
}

/// The values under a name, in order.
pub open spec fn values_named(
    entries: Seq<(Seq<char>, VdfNode)>,
    name: Seq<char>,
    exact: bool,
) -> Seq<VdfNode>
    decreases entries.len(),
{
    if entries.len() == 0 {
        Seq::empty()
    } else {
        let before = values_named(entries.drop_last(), name, exact);
        if is_named(entries.last().0, name, exact) {
            before.push(entries.last().1)
        } else {
            before
        }
    }
}

/// The first object among some values.
pub open spec fn first_object(values: Seq<VdfNode>) -> Option<Seq<(Seq<char>, VdfNode)>>
    decreases values.len(),
{
    if values.len() == 0 {
        None
    } else {
        match first_object(values.drop_last()) {
            Some(object) => Some(object),
            None => match values.last() {
                VdfNode::Object(object) => Some(object),
                VdfNode::Text(_) => None,
            },
        }
    }
}

/// The first text among some values.
pub open spec fn first_text(values: Seq<VdfNode>) -> Option<Seq<char>>
    decreases values.len(),
{
    if values.len() == 0 {
        None
    } else {
        match first_text(values.drop_last()) {
            Some(text) => Some(text),
            None => match values.last() {
                VdfNode::Text(text) => Some(text),
                VdfNode::Object(_) => None,
            },
        }
    }
}

/// The only object among some values. Several values, or one of another kind,
/// are ambiguous.
pub open spec fn sole_object(values: Seq<VdfNode>) -> Result<
    Option<Seq<(Seq<char>, VdfNode)>>,
    (),
> {
    if values.len() == 0 {
        Ok(None)
    } else if values.len() > 1 {
        Err(())
    } else {
        match values[0] {
            VdfNode::Object(object) => Ok(Some(object)),
            VdfNode::Text(_) => Err(()),
        }
    }
}

/// The only text among some values. Several values, or one of another kind,
/// are ambiguous.
pub open spec fn sole_text(values: Seq<VdfNode>) -> Result<Option<Seq<char>>, ()> {
    if values.len() == 0 {
        Ok(None)
    } else if values.len() > 1 {
        Err(())
    } else {
        match values[0] {
            VdfNode::Text(text) => Ok(Some(text)),
            VdfNode::Object(_) => Err(()),
        }
    }
}

fn has_name(key: &str, name: &str, exact: bool) -> (result: bool)
    ensures
        result == is_named(key@, name@, exact),
{
    if exact {
        text::same_text(key, name)
    } else {
        let chars = text::chars_of(key);
        text::eq_ignore_ascii_case(chars.as_slice(), name)
    }
}

impl VdfObject {
    /// The number of entries.
    pub fn len(&self) -> (result: usize)
        ensures
            result == self@.len(),
    {
        proof {
            lemma_nodes(self.entries@);
        }
        self.entries.len()
    }

    /// The object in the entry at a position.
    pub fn object_at(&self, index: usize) -> (result: Option<&VdfObject>)
        requires
            index < self@.len(),
        ensures
            match result {
                Some(object) => self@[index as int].1 == VdfNode::Object(object@),
                None => self@[index as int].1 is Text,
            },
    {
        proof {
            lemma_nodes(self.entries@);
        }
        let value = &self.entries[index].1;
        assert(self@[index as int].1 == node_of(*value));
        match value {
            VdfValue::Object(object) => {
                assert(node_of(*value) == VdfNode::Object(object@));
                Some(object)
            },
            VdfValue::Text(_) => None,
        }
    }

    fn value_at(&self, index: usize) -> (result: &VdfValue)
        requires
            index < self@.len(),
        ensures
            node_of(*result) == self@[index as int].1,
    {
        proof {
            lemma_nodes(self.entries@);
        }
        &self.entries[index].1
    }

    fn named_at(&self, index: usize, name: &str, exact: bool) -> (result: bool)
        requires
            index < self@.len(),
        ensures
            result == is_named(self@[index as int].0, name@, exact),
            values_named(self@.take(index + 1), name@, exact) == (if result {
                values_named(self@.take(index as int), name@, exact).push(self@[index as int].1)
            } else {
                values_named(self@.take(index as int), name@, exact)
            }),
    {
        proof {
            lemma_nodes(self.entries@);
            assert(self@.take(index + 1).drop_last() =~= self@.take(index as int));
            assert(self@.take(index + 1).last() == self@[index as int]);
        }
        has_name(self.entries[index].0.as_str(), name, exact)
    }

    /// The first object under a key, without regard to ASCII case.
    pub fn object(&self, key: &str) -> (result: Option<&VdfObject>)
        ensures
            match result {
                Some(object) => first_object(values_named(self@, key@, false)) == Some(object@),
                None => first_object(values_named(self@, key@, false)) is None,
            },
    {
        let mut found: Option<&VdfObject> = None;
        let mut index: usize = 0;
        assert(self@.take(0) =~= Seq::empty());
        while index < self.len()
            invariant
                index <= self@.len(),
                match found {
                    Some(object) => first_object(
                        values_named(self@.take(index as int), key@, false),
                    ) == Some(object@),
                    None => first_object(
                        values_named(self@.take(index as int), key@, false),
                    ) is None,
                },
            decreases self@.len() - index,
        {
            let ghost before = values_named(self@.take(index as int), key@, false);
            if self.named_at(index, key, false) {
                assert(before.push(self@[index as int].1).drop_last() =~= before);
                if found.is_none() {
                    found = self.object_at(index);
                }
            }
            index = index + 1;
        }
        assert(self@.take(index as int) =~= self@);
        found
    }

    /// The first text under a key, without regard to ASCII case.
    pub fn text(&self, key: &str) -> (result: Option<&str>)
        ensures
            match result {
                Some(text) => first_text(values_named(self@, key@, false)) == Some(text@),
                None => first_text(values_named(self@, key@, false)) is None,
            },
    {
        let mut found: Option<&str> = None;
        let mut index: usize = 0;
        assert(self@.take(0) =~= Seq::empty());
        while index < self.len()
            invariant
                index <= self@.len(),
                match found {
                    Some(text) => first_text(values_named(self@.take(index as int), key@, false))
                        == Some(text@),
                    None => first_text(values_named(self@.take(index as int), key@, false)) is None,
                },
            decreases self@.len() - index,
        {
            let ghost before = values_named(self@.take(index as int), key@, false);
            if self.named_at(index, key, false) {
                assert(before.push(self@[index as int].1).drop_last() =~= before);
                if found.is_none() {
                    let value = self.value_at(index);
                    if let VdfValue::Text(text) = value {
                        assert(node_of(*value) == VdfNode::Text(text@));
                        found = Some(text.as_str());
                    }
                }
            }
            index = index + 1;
        }
        assert(self@.take(index as int) =~= self@);
        found
    }

    fn sole_value(&self, key: &str, exact: bool) -> (result: Result<Option<&VdfValue>, ()>)
        ensures
            match result {
                Ok(None) => values_named(self@, key@, exact).len() == 0,
                Ok(Some(value)) => values_named(self@, key@, exact) == seq![node_of(*value)],
                Err(()) => values_named(self@, key@, exact).len() > 1,
            },
    {
        let mut found: Option<&VdfValue> = None;
        let mut several = false;
        let mut index: usize = 0;
        assert(self@.take(0) =~= Seq::empty());
        while index < self.len()
            invariant
                index <= self@.len(),
                several == (values_named(self@.take(index as int), key@, exact).len() > 1),
                match found {
                    Some(value) => {
                        let values = values_named(self@.take(index as int), key@, exact);
                        values.len() > 0 && values[0] == node_of(*value)
                    },
                    None => values_named(self@.take(index as int), key@, exact).len() == 0,
                },
            decreases self@.len() - index,
        {
            if self.named_at(index, key, exact) {
                if found.is_some() {
                    several = true;
                } else {
                    found = Some(self.value_at(index));
                }
            }
            index = index + 1;
        }
        assert(self@.take(index as int) =~= self@);
        if several {
            Err(())
        } else {
            proof {
                if let Some(value) = found {
                    assert(values_named(self@, key@, exact) =~= seq![node_of(*value)]);
                }
            }
            Ok(found)
        }
    }

    /// The only object under a key, without regard to ASCII case.
    pub fn unique_object(&self, key: &str) -> (result: Result<Option<&VdfObject>, ()>)
        ensures
            match result {
                Ok(Some(object)) => sole_object(values_named(self@, key@, false)) == Ok::<
                    Option<Seq<(Seq<char>, VdfNode)>>,
                    (),
                >(Some(object@)),
                Ok(None) => sole_object(values_named(self@, key@, false)) matches Ok(None),
                Err(()) => sole_object(values_named(self@, key@, false)) is Err,
            },
    {
        match self.sole_value(key, false) {
            Err(()) => Err(()),
            Ok(None) => Ok(None),
            Ok(Some(value)) => match value {
                VdfValue::Object(object) => {
                    assert(node_of(*value) == VdfNode::Object(object@));
                    Ok(Some(object))
                },
                VdfValue::Text(_) => Err(()),
            },
        }
    }

    /// The only object under exactly a key.
    pub fn unique_exact_object(&self, key: &str) -> (result: Result<Option<&VdfObject>, ()>)
        ensures
            match result {
                Ok(Some(object)) => sole_object(values_named(self@, key@, true)) == Ok::<
                    Option<Seq<(Seq<char>, VdfNode)>>,
                    (),
                >(Some(object@)),
                Ok(None) => sole_object(values_named(self@, key@, true)) matches Ok(None),
                Err(()) => sole_object(values_named(self@, key@, true)) is Err,
            },
    {
        match self.sole_value(key, true) {
            Err(()) => Err(()),
            Ok(None) => Ok(None),
            Ok(Some(value)) => match value {
                VdfValue::Object(object) => {
                    assert(node_of(*value) == VdfNode::Object(object@));
                    Ok(Some(object))
                },
                VdfValue::Text(_) => Err(()),
            },
        }
    }

    /// The only text under a key, without regard to ASCII case.
    pub fn unique_text(&self, key: &str) -> (result: Result<Option<&str>, ()>)
        ensures
            match result {
                Ok(Some(text)) => sole_text(values_named(self@, key@, false)) == Ok::<
                    Option<Seq<char>>,
                    (),
                >(Some(text@)),
                Ok(None) => sole_text(values_named(self@, key@, false)) matches Ok(None),
                Err(()) => sole_text(values_named(self@, key@, false)) is Err,
            },
    {
        match self.sole_value(key, false) {
            Err(()) => Err(()),
            Ok(None) => Ok(None),
            Ok(Some(value)) => match value {
                VdfValue::Text(text) => {
                    assert(node_of(*value) == VdfNode::Text(text@));
                    Ok(Some(text.as_str()))
                },
                VdfValue::Object(_) => Err(()),
            },
        }
    }
}

/// Why a document could not be read.
#[derive(Clone, Copy, Debug, PartialEq, Eq, Structural)]
pub enum VdfReadError {
    Inspect,
    UnsafeFile,
    Oversized,
    Open,
    ChangedDuringOpen,
    Read,
    InvalidUtf8,
    Malformed,
}

/// What the file system says of a document before it is opened.
#[derive(Clone, Copy, Debug, PartialEq, Eq, Structural)]
pub struct VdfFile {
    pub is_regular: bool,
    pub length: u64,
    pub device: u64,
    pub inode: u64,
}

/// Accepts a document for opening.
pub fn check_listed_file(listed: VdfFile) -> (result: Result<(), VdfReadError>)
    ensures
        result == (if !listed.is_regular {
            Err(VdfReadError::UnsafeFile)
        } else if listed.length > MAX_VDF_BYTES {
            Err(VdfReadError::Oversized)
        } else {
            Ok(())
        }),
{
    if !listed.is_regular {
        return Err(VdfReadError::UnsafeFile);
    }
    if listed.length > MAX_VDF_BYTES {
        return Err(VdfReadError::Oversized);
    }
    Ok(())
}

/// Accepts an opened document that is still the one that was listed.
pub fn check_opened_file(listed: VdfFile, opened: VdfFile) -> (result: Result<(), VdfReadError>)
    ensures
        result == (if !opened.is_regular || opened.device != listed.device || opened.inode
            != listed.inode {
            Err(VdfReadError::ChangedDuringOpen)
        } else if opened.length > MAX_VDF_BYTES {
            Err(VdfReadError::Oversized)
        } else {
            Ok(())
        }),
{
    if !opened.is_regular || opened.device != listed.device || opened.inode != listed.inode {
        return Err(VdfReadError::ChangedDuringOpen);
    }
    if opened.length > MAX_VDF_BYTES {
        return Err(VdfReadError::Oversized);
    }
    Ok(())
}

/// What the bytes of a document hold.
pub open spec fn read_document(bytes: Seq<u8>) -> Result<Seq<(Seq<char>, VdfNode)>, VdfReadError> {
    if bytes.len() > MAX_VDF_BYTES {
        Err(VdfReadError::Oversized)
    } else if !vstd::utf8::valid_utf8(bytes) {
        Err(VdfReadError::InvalidUtf8)
    } else {
        match document(bytes) {
            None => Err(VdfReadError::Malformed),
            Some(entries) => Ok(entries),
        }
    }
}

/// Reads the bytes of a document.
pub fn read_vdf_bytes(bytes: &[u8]) -> (result: Result<VdfObject, VdfReadError>)
    ensures
        match result {
            Ok(object) => read_document(bytes@) == Ok::<Seq<(Seq<char>, VdfNode)>, VdfReadError>(
                object@,
            ),
            Err(error) => read_document(bytes@) == Err::<Seq<(Seq<char>, VdfNode)>, VdfReadError>(
                error,
            ),
        },
{
    if bytes.len() as u64 > MAX_VDF_BYTES {
        return Err(VdfReadError::Oversized);
    }
    match text::decode(bytes) {
        None => Err(VdfReadError::InvalidUtf8),
        Some(decoded) => {
            proof {
                vstd::utf8::decode_utf8_encode_utf8(bytes@);
            }
            match parse(decoded.as_str()) {
                None => Err(VdfReadError::Malformed),
                Some(object) => Ok(object),
            }
        },
    }
}

/// How many entries a list holds, those inside its objects counted too.
pub open spec fn entry_count(entries: Seq<(Seq<char>, VdfNode)>) -> nat
    decreases entries,
{
    if entries.len() == 0 {
        0
    } else {
        entry_count(entries.drop_last()) + 1 + inner_count(entries.last().1)
    }
}

/// How many entries a value holds.
pub open spec fn inner_count(node: VdfNode) -> nat
    decreases node,
{
    match node {
        VdfNode::Text(_) => 0,
        VdfNode::Object(entries) => entry_count(entries),
    }
}

/// Whether objects are nested at most `depth` deep in a list.
pub open spec fn nested_within(entries: Seq<(Seq<char>, VdfNode)>, depth: int) -> bool
    decreases entries,
{
    if entries.len() == 0 {
        true
    } else {
        nested_within(entries.drop_last(), depth) && node_within(entries.last().1, depth)
    }
}

/// Whether objects are nested at most `depth` deep in a value.
pub open spec fn node_within(node: VdfNode, depth: int) -> bool
    decreases node,
{
    match node {
        VdfNode::Text(_) => true,
        VdfNode::Object(entries) => depth > 0 && nested_within(entries, depth - 1),
    }
}

proof fn lemma_one_more_entry(
    done: Seq<(Seq<char>, VdfNode)>,
    key: Seq<char>,
    node: VdfNode,
    depth: int,
)
    ensures
        nested_within(done, depth) && node_within(node, depth) ==> nested_within(
            done.push((key, node)),
            depth,
        ),
        entry_count(done.push((key, node))) == entry_count(done) + 1 + inner_count(node),
{
    let all = done.push((key, node));
    assert(all.drop_last() =~= done);
    assert(all.last() == (key, node));
}

/// Reading counts every entry and keeps to the depth.
proof fn lemma_entries_are_counted(
    rest: Seq<u8>,
    depth: nat,
    closed: bool,
    count: nat,
    done: Seq<(Seq<char>, VdfNode)>,
)
    requires
        depth <= MAX_VDF_DEPTH,
        count <= MAX_VDF_ENTRIES,
        nested_within(done, MAX_VDF_DEPTH - depth),
    ensures
        entries_from(rest, depth, closed, count, done) matches Some(parsed) ==> {
            &&& parsed.count <= MAX_VDF_ENTRIES
            &&& parsed.count + entry_count(done) == count + entry_count(parsed.entries)
            &&& nested_within(parsed.entries, MAX_VDF_DEPTH - depth)
        },
    decreases rest.len(),
{
    let front = skipped(rest);
    lemma_skipped_shrinks(rest);
    lemma_token_shrinks(front);
    if front.len() > 0 && front[0] != CLOSE_BRACE {
        if let Some((key, behind_key)) = token(front) {
            let value = skipped(behind_key);
            lemma_skipped_shrinks(behind_key);
            lemma_token_shrinks(value);
            if value.len() > 0 && value[0] == OPEN_BRACE {
                if depth + 1 <= MAX_VDF_DEPTH {
                    let none = Seq::<(Seq<char>, VdfNode)>::empty();
                    lemma_entries_are_counted(value.skip(1), depth + 1, true, count, none);
                    lemma_entries_shrink(value.skip(1), depth + 1, true, count, none);
                    if let Some(inner) = entries_from(value.skip(1), depth + 1, true, count, none) {
                        if inner.count + 1 <= MAX_VDF_ENTRIES {
                            let next = done.push((key, VdfNode::Object(inner.entries)));
                            assert(entry_count(none) == 0);
                            lemma_one_more_entry(
                                done,
                                key,
                                VdfNode::Object(inner.entries),
                                MAX_VDF_DEPTH - depth,
                            );
                            lemma_entries_are_counted(
                                inner.rest,
                                depth,
                                closed,
                                inner.count + 1,
                                next,
                            );
                        }
                    }
                }
            } else if let Some((text, behind_text)) = token(value) {
                if count + 1 <= MAX_VDF_ENTRIES {
                    let next = done.push((key, VdfNode::Text(text)));
                    lemma_one_more_entry(done, key, VdfNode::Text(text), MAX_VDF_DEPTH - depth);
                    lemma_entries_are_counted(behind_text, depth, closed, count + 1, next);
                }
            }
        }
    }
}

/// A document is bounded, whatever its text: in the entries of all its objects
/// together, and in the depth of their nesting.
pub proof fn documents_are_bounded(input: Seq<u8>)
    ensures
        document(input) matches Some(entries) ==> entry_count(entries) <= MAX_VDF_ENTRIES
            && nested_within(entries, MAX_VDF_DEPTH as int),
{
    let none = Seq::<(Seq<char>, VdfNode)>::empty();
    assert(entry_count(none) == 0);
    lemma_entries_are_counted(input, 0, false, 0, none);
}

/// Bytes as they stand between quotes: quotes and backslashes behind a
/// backslash.
pub open spec fn escaped(bytes: Seq<u8>) -> Seq<u8>
    decreases bytes.len(),
{
    if bytes.len() == 0 {
        Seq::empty()
    } else if bytes[0] == '"' as u8 || bytes[0] == '\\' as u8 {
        seq!['\\' as u8, bytes[0]] + escaped(bytes.skip(1))
    } else {
        seq![bytes[0]] + escaped(bytes.skip(1))
    }
}

/// A text between quotes.
pub open spec fn written_text(text: Seq<char>) -> Seq<u8> {
    seq!['"' as u8] + escaped(vstd::utf8::encode_utf8(text)) + seq!['"' as u8]
}

/// Entries one after another, each its name and its value.
pub open spec fn written(entries: Seq<(Seq<char>, VdfNode)>) -> Seq<u8>
    decreases entries,
{
    if entries.len() == 0 {
        Seq::empty()
    } else {
        written(entries.drop_last()) + (written_text(entries.last().0) + written_value(
            entries.last().1,
        ))
    }
}

/// A value: a text, or entries between braces.
pub open spec fn written_value(node: VdfNode) -> Seq<u8>
    decreases node,
{
    match node {
        VdfNode::Text(text) => written_text(text),
        VdfNode::Object(entries) => seq!['{' as u8] + written(entries) + seq!['}' as u8],
    }
}

/// Whether no text is longer than 64 kibibytes.
pub open spec fn texts_fit(entries: Seq<(Seq<char>, VdfNode)>) -> bool
    decreases entries,
{
    entries.len() > 0 ==> texts_fit(entries.drop_last()) && vstd::utf8::encode_utf8(
        entries.last().0,
    ).len() <= 65_536 && value_fits(entries.last().1)
}

pub open spec fn value_fits(node: VdfNode) -> bool
    decreases node,
{
    match node {
        VdfNode::Text(text) => vstd::utf8::encode_utf8(text).len() <= 65_536,
        VdfNode::Object(entries) => texts_fit(entries),
    }
}

proof fn lemma_quoted(bytes: Seq<u8>, done: Seq<u8>, rest: Seq<u8>)
    requires
        done.len() + bytes.len() <= 65_536,
    ensures
        quoted(escaped(bytes) + seq![34u8] + rest, done) == Some((done + bytes, rest)),
    decreases bytes.len(),
{
    let all = escaped(bytes) + seq![34u8] + rest;
    if bytes.len() == 0 {
        assert(all[0] == 34u8);
        assert(all.skip(1) =~= rest);
        assert(done + bytes =~= done);
    } else {
        let later = bytes.skip(1);
        let next = done.push(bytes[0]);
        lemma_quoted(later, next, rest);
        assert(next + later =~= done + bytes);
        if bytes[0] == 34u8 || bytes[0] == 92u8 {
            assert(all[0] == 92u8 && all[1] == bytes[0]);
            assert(all.skip(2) =~= escaped(later) + seq![34u8] + rest);
        } else {
            assert(all[0] == bytes[0]);
            assert(all.skip(1) =~= escaped(later) + seq![34u8] + rest);
        }
    }
}

/// A text between quotes is read back, whatever characters it holds.
pub proof fn texts_are_read_back(text: Seq<char>, rest: Seq<u8>)
    requires
        vstd::utf8::encode_utf8(text).len() <= 65_536,
    ensures
        token(written_text(text) + rest) == Some((text, rest)),
        skipped(written_text(text) + rest) == written_text(text) + rest,
{
    let bytes = vstd::utf8::encode_utf8(text);
    let all = written_text(text) + rest;
    assert(all[0] == 34u8);
    assert(skipped(all) == all);
    let none = Seq::<u8>::empty();
    lemma_quoted(bytes, none, rest);
    assert(none + bytes =~= bytes);
    assert(all.skip(1) =~= escaped(bytes) + seq![34u8] + rest);
    vstd::utf8::encode_utf8_decode_utf8(text);
    vstd::utf8::encode_utf8_valid_utf8(text);
}

#[verifier::spinoff_prover]
proof fn lemma_entries_read(
    entries: Seq<(Seq<char>, VdfNode)>,
    rest: Seq<u8>,
    depth: nat,
    closed: bool,
    count: nat,
    done: Seq<(Seq<char>, VdfNode)>,
)
    requires
        texts_fit(entries),
        depth <= 16,
        nested_within(entries, 16 - depth),
        count + entry_count(entries) <= 16_384,
    ensures
        entries_from(written(entries) + rest, depth, closed, count, done) == entries_from(
            rest,
            depth,
            closed,
            count + entry_count(entries),
            done + entries,
        ),
    decreases entries,
{
    if entries.len() == 0 {
        assert(written(entries) + rest =~= rest);
        assert(done + entries =~= done);
    } else {
        let before = entries.drop_last();
        let (key, value) = entries.last();
        let entry = written_text(key) + written_value(value);
        lemma_entries_read(before, entry + rest, depth, closed, count, done);
        assert(written(entries) + rest =~= written(before) + (entry + rest));
        let so_far = count + entry_count(before);
        lemma_entry_read(key, value, rest, depth, closed, so_far, done + before);
        assert((done + before).push((key, value)) =~= done + entries);
    }
}

#[verifier::spinoff_prover]
proof fn lemma_entry_read(
    key: Seq<char>,
    value: VdfNode,
    rest: Seq<u8>,
    depth: nat,
    closed: bool,
    count: nat,
    done: Seq<(Seq<char>, VdfNode)>,
)
    requires
        vstd::utf8::encode_utf8(key).len() <= 65_536,
        value_fits(value),
        depth <= 16,
        node_within(value, 16 - depth),
        count + 1 + inner_count(value) <= 16_384,
    ensures
        entries_from(
            written_text(key) + written_value(value) + rest,
            depth,
            closed,
            count,
            done,
        ) == entries_from(
            rest,
            depth,
            closed,
            count + 1 + inner_count(value),
            done.push((key, value)),
        ),
    decreases value,
{
    let front = written_text(key) + written_value(value) + rest;
    let behind = written_value(value) + rest;
    assert(front =~= written_text(key) + behind);
    texts_are_read_back(key, behind);
    assert(front[0] == 34u8);
    match value {
        VdfNode::Text(text) => {
            texts_are_read_back(text, rest);
            assert(behind[0] == 34u8);
        },
        VdfNode::Object(inner) => {
            let none = Seq::<(Seq<char>, VdfNode)>::empty();
            let end = seq![125u8] + rest;
            assert(behind[0] == 123u8);
            assert(skipped(behind) == behind);
            assert(behind.skip(1) =~= written(inner) + end);
            lemma_entries_read(inner, end, depth + 1, true, count, none);
            assert(none + inner =~= inner);
            assert(end[0] == 125u8);
            assert(skipped(end) == end);
            assert(end.skip(1) =~= rest);
            assert(entries_from(behind.skip(1), depth + 1, true, count, none) == Some(
                Parsed { entries: inner, rest, count: count + entry_count(inner) },
            ));
        },
    }
}

/// A document of up to 16384 entries, nested up to 16 deep, is read back from
/// its text: every name and every value, in order.
pub proof fn documents_are_read_back(entries: Seq<(Seq<char>, VdfNode)>)
    requires
        texts_fit(entries),
        nested_within(entries, 16),
        entry_count(entries) <= 16_384,
    ensures
        document(written(entries)) == Some(entries),
{
    let none = Seq::<(Seq<char>, VdfNode)>::empty();
    let end = Seq::<u8>::empty();
    lemma_entries_read(entries, end, 0, false, 0, none);
    assert(written(entries) + end =~= written(entries));
    assert(none + entries =~= entries);
    assert(skipped(end) == end);
}

/// Spaces, tabs and line ends between texts mean nothing, and neither does a
/// comment: two slashes and what follows on their line.
pub proof fn blanks_and_comments_mean_nothing(comment: Seq<u8>, rest: Seq<u8>)
    requires
        !comment.contains('\n' as u8),
    ensures
        skipped(seq![' ' as u8] + rest) == skipped(rest),
        skipped(seq!['\t' as u8] + rest) == skipped(rest),
        skipped(seq!['\n' as u8] + rest) == skipped(rest),
        skipped(seq!['\r' as u8] + rest) == skipped(rest),
        skipped(seq!['/' as u8, '/' as u8] + comment + seq!['\n' as u8] + rest) == skipped(rest),
{
    assert((seq![32u8] + rest).skip(1) =~= rest);
    assert((seq![9u8] + rest).skip(1) =~= rest);
    assert((seq![10u8] + rest).skip(1) =~= rest);
    assert((seq![13u8] + rest).skip(1) =~= rest);
    let all = seq![47u8, 47u8] + comment + seq![10u8] + rest;
    let line = comment + seq![10u8] + rest;
    assert(all[0] == 47u8 && all[1] == 47u8);
    assert(all.skip(2) =~= line);
    lemma_line_passed(comment, rest);
    assert(skipped(all) == skipped(seq![10u8] + rest));
}

proof fn lemma_line_passed(comment: Seq<u8>, rest: Seq<u8>)
    requires
        !comment.contains(10u8),
    ensures
        at_line_end(comment + seq![10u8] + rest) == seq![10u8] + rest,
    decreases comment.len(),
{
    let line = comment + seq![10u8] + rest;
    if comment.len() == 0 {
        assert(line =~= seq![10u8] + rest);
        assert(line[0] == 10u8);
    } else {
        assert(comment.contains(comment[0]));
        let later = comment.skip(1);
        assert forall|i: int| 0 <= i < later.len() implies later[i] != 10u8 by {
            assert(comment.contains(comment[i + 1]));
        }
        lemma_line_passed(later, rest);
        assert(line.skip(1) =~= later + seq![10u8] + rest);
    }
}

/// A configuration of up to a mebibyte is read.
pub proof fn configurations_are_read_to_a_mebibyte(bytes: Seq<u8>)
    ensures
        bytes.len() > 1_024 * 1_024 <==> read_document(bytes) == Err::<
            Seq<(Seq<char>, VdfNode)>,
            VdfReadError,
        >(VdfReadError::Oversized),
        MAX_VDF_BYTES == 1_024 * 1_024,
{
}

/// Of several values under one name the first text counts, and the first object.
pub proof fn the_first_value_counts(before: Seq<VdfNode>, value: VdfNode, rest: Seq<VdfNode>)
    ensures
        (forall|i: int| 0 <= i < before.len() ==> #[trigger] before[i] is Object) && (
        value matches VdfNode::Text(text)) ==> first_text(before + seq![value] + rest) == Some(
            value->Text_0,
        ),
        (forall|i: int| 0 <= i < before.len() ==> #[trigger] before[i] is Text) && (
        value matches VdfNode::Object(entries)) ==> first_object(before + seq![value] + rest)
            == Some(value->Object_0),
    decreases rest.len(),
{
    let all = before + seq![value] + rest;
    if rest.len() > 0 {
        the_first_value_counts(before, value, rest.drop_last());
        assert(all.drop_last() =~= before + seq![value] + rest.drop_last());
    } else {
        assert(all.drop_last() =~= before);
        assert(all.last() == value);
        lemma_no_value(before);
    }
}

proof fn lemma_no_value(values: Seq<VdfNode>)
    ensures
        (forall|i: int| 0 <= i < values.len() ==> #[trigger] values[i] is Object) ==> first_text(
            values,
        ) is None,
        (forall|i: int| 0 <= i < values.len() ==> #[trigger] values[i] is Text) ==> first_object(
            values,
        ) is None,
    decreases values.len(),
{
    if values.len() > 0 {
        let shorter = values.drop_last();
        lemma_no_value(shorter);
        assert forall|i: int| 0 <= i < shorter.len() implies #[trigger] shorter[i] == values[i] by {}
        assert(values.last() == values[values.len() - 1]);
    }
}

} // verus!
