use crate::node::DocMessage;
use vstd::prelude::*;
use vstd::string::*;

verus! {

/// White space as `char::is_whitespace` has it: the Unicode `White_Space`
/// characters.
pub open spec fn is_whitespace(c: char) -> bool {
    ||| c == ' '
    ||| ('\u{9}' <= c && c <= '\u{d}')
    ||| c == '\u{85}'
    ||| c == '\u{a0}'
    ||| c == '\u{1680}'
    ||| ('\u{2000}' <= c && c <= '\u{200a}')
    ||| c == '\u{2028}'
    ||| c == '\u{2029}'
    ||| c == '\u{202f}'
    ||| c == '\u{205f}'
    ||| c == '\u{3000}'
}

fn char_is_whitespace(c: char) -> (r: bool)
    ensures
        r == is_whitespace(c),
{
    c == ' ' || ('\u{9}' <= c && c <= '\u{d}') || c == '\u{85}' || c == '\u{a0}' || c
        == '\u{1680}' || ('\u{2000}' <= c && c <= '\u{200a}') || c == '\u{2028}' || c
        == '\u{2029}' || c == '\u{202f}' || c == '\u{205f}' || c == '\u{3000}'
}

/// The words of `s`, as `split_whitespace` yields them: the maximal runs of
/// characters that are not white space, in order. Trimming `s` first does
/// not change them.
pub open spec fn words(s: Seq<char>) -> Seq<Seq<char>>
    decreases s.len(),
{
    if s.len() == 0 {
        Seq::empty()
    } else {
        let w = words(s.drop_last());
        let c = s.last();
        if is_whitespace(c) {
            w
        } else if s.len() >= 2 && !is_whitespace(s[s.len() - 2]) {
            w.update(w.len() - 1, w.last().push(c))
        } else {
            w.push(seq![c])
        }
    }
}

/// The words joined with single spaces, as `join(" ")` does.
pub open spec fn join_words(ws: Seq<Seq<char>>) -> Seq<char>
    decreases ws.len(),
{
    if ws.len() == 0 {
        Seq::empty()
    } else if ws.len() == 1 {
        ws[0]
    } else {
        join_words(ws.drop_last()) + seq![' '] + ws.last()
    }
}

/// `s` without its double quotes, as `replace("\"", "")` leaves it.
pub open spec fn without_quotes(s: Seq<char>) -> Seq<char>
    decreases s.len(),
{
    if s.len() == 0 {
        s
    } else if s.last() == '"' {
        without_quotes(s.drop_last())
    } else {
        without_quotes(s.drop_last()).push(s.last())
    }
}

/// The content that a command carries: its words from `from` on, joined
/// with spaces, without double quotes.
pub open spec fn command_content(ws: Seq<Seq<char>>, from: int) -> Seq<char> {
    without_quotes(join_words(ws.skip(from)))
}

/// What a line typed by the user of a client asks for.
#[derive(Debug)]
pub enum ClientAction {
    /// A blank line: nothing to do.
    Nothing,
    /// A message to publish.
    Publish { message: DocMessage },
    /// A line that is no command.
    Unrecognized,
}

/// The words of `line`, as `split_whitespace` yields them.
pub fn split_words(line: &str) -> (r: Vec<String>)
    ensures
        r@.map_values(|w: String| w@) == words(line@),
{
    let n = line.unicode_len();
    let mut done: Vec<String> = Vec::new();
    let mut in_word = false;
    let mut start: usize = 0;
    let mut i: usize = 0;
    while i < n
        invariant
            n == line@.len(),
            i <= n,
            start <= i,
            in_word <==> (i > 0 && !is_whitespace(line@[i - 1])),
            in_word ==> forall|j: int| start <= j < i ==> !is_whitespace(line@[j]),
            in_word ==> (start == 0 || is_whitespace(line@[start - 1])),
            words(line@.take(i as int)) == done@.map_values(|w: String| w@) + if in_word {
                seq![line@.subrange(start as int, i as int)]
            } else {
                Seq::<Seq<char>>::empty()
            },
        decreases n - i,
    {
        let c = line.get_char(i);
        let ghost before = done@.map_values(|w: String| w@);
        assert(line@.take(i + 1).drop_last() =~= line@.take(i as int));
        assert(line@.take(i + 1).last() == c);
        if char_is_whitespace(c) {
            if in_word {
                let w = String::from_str(line.substring_char(start, i));
                done.push(w);
                assert(done@.map_values(|w: String| w@) =~= before.push(
                    line@.subrange(start as int, i as int),
                ));
            }
            in_word = false;
        } else {
            if in_word {
                assert(line@.take(i + 1)[i - 1] == line@[i - 1]);
                assert(line@.subrange(start as int, i as int).push(c) =~= line@.subrange(
                    start as int,
                    i + 1,
                ));
            } else {
                start = i;
                assert(line@.subrange(start as int, i + 1) =~= seq![c]);
                if i > 0 {
                    assert(line@.take(i + 1)[i - 1] == line@[i - 1]);
                }
            }
            in_word = true;
        }
        i += 1;
        assert(words(line@.take(i as int)) =~= done@.map_values(|w: String| w@) + if in_word {
            seq![line@.subrange(start as int, i as int)]
        } else {
            Seq::<Seq<char>>::empty()
        });
    }
    let ghost before = done@.map_values(|w: String| w@);
    if in_word {
        let w = String::from_str(line.substring_char(start, n));
        done.push(w);
        assert(done@.map_values(|w: String| w@) =~= before.push(
            line@.subrange(start as int, n as int),
        ));
    }
    assert(line@.take(n as int) =~= line@);
    assert(done@.map_values(|w: String| w@) =~= words(line@));
    done
}

/// The words of `ws` from `from` on, joined with spaces and without double
/// quotes.
fn content_from(ws: &Vec<String>, from: usize) -> (r: String)
    requires
        from <= ws@.len(),
    ensures
        r@ == command_content(ws@.map_values(|w: String| w@), from as int),
{
    let ghost v = ws@.map_values(|w: String| w@);
    let mut joined = String::new();
    let mut k: usize = from;
    while k < ws.len()
        invariant
            from <= k <= ws@.len(),
            v == ws@.map_values(|w: String| w@),
            joined@ == join_words(v.subrange(from as int, k as int)),
        decreases ws@.len() - k,
    {
        let ghost prev = v.subrange(from as int, k as int);
        let ghost old_joined = joined@;
        if k > from {
            joined.append(" ");
            proof {
                reveal_strlit(" ");
            }
            assert(" "@ =~= seq![' ']);
            assert(joined@ =~= old_joined + seq![' ']);
        }
        let ghost mid = joined@;
        let word = ws[k].as_str();
        assert(word@ == ws@[k as int]@);
        joined.append(word);
        assert(joined@ == mid + ws@[k as int]@);
        let ghost next = v.subrange(from as int, k + 1);
        assert(next.drop_last() =~= prev);
        assert(next.last() == ws@[k as int]@);
        if k == from {
            assert(next.len() == 1);
            assert(next[0] == ws@[k as int]@);
            assert(old_joined == Seq::<char>::empty());
            assert(joined@ =~= join_words(next));
        } else {
            assert(joined@ =~= old_joined + seq![' '] + ws@[k as int]@);
            assert(joined@ =~= join_words(next));
        }
        k += 1;
    }
    assert(v.subrange(from as int, ws@.len() as int) =~= v.skip(from as int));
    let ghost text = joined@;
    let n = joined.as_str().unicode_len();
    let mut out = String::new();
    let mut i: usize = 0;
    while i < n
        invariant
            i <= n,
            n == text.len(),
            joined@ == text,
            out@ == without_quotes(text.take(i as int)),
        decreases n - i,
    {
        let c = joined.as_str().get_char(i);
        assert(text.take(i + 1).drop_last() =~= text.take(i as int));
        assert(text.take(i + 1).last() == c);
        if c != '"' {
            let piece = joined.as_str().substring_char(i, i + 1);
            assert(piece@ =~= seq![c]);
            out.append(piece);
        }
        i += 1;
        assert(out@ =~= without_quotes(text.take(i as int)));
    }
    assert(text.take(n as int) =~= text);
    out
}

/// Whether the word `w` is exactly `keyword`.
fn word_is(w: &String, keyword: &str) -> (r: bool)
    ensures
        r == (w@ == keyword@),
{
    let k = String::from_str(keyword);
    *w == k
}

/// What a line typed by the client `client_id` asks for: `create <id>
/// <content>` publishes a creation, `update <version> <new version>
/// <content>` publishes a write, a blank line does nothing, and anything
/// else is no command.
pub fn parse_command(client_id: &String, line: &str) -> (a: ClientAction)
    ensures
        ({
            let ws = words(line@);
            if ws.len() == 0 {
                a matches ClientAction::Nothing
            } else if ws[0] == "create"@ && ws.len() >= 3 {
                a matches ClientAction::Publish {
                    message: DocMessage::Create { client_id: c, doc_id, content },
                } && c@ == client_id@ && doc_id@ == ws[1] && content@ == command_content(ws, 2)
            } else if ws[0] == "update"@ && ws.len() >= 4 {
                a matches ClientAction::Publish {
                    message: DocMessage::Update { client_id: c, old_version, new_version, content },
                } && c@ == client_id@ && old_version@ == ws[1] && new_version@ == ws[2]
                    && content@ == command_content(ws, 3)
            } else {
                a matches ClientAction::Unrecognized
            }
        }),
{
    let parts = split_words(line);
    let ghost ws = parts@.map_values(|w: String| w@);
    if parts.len() == 0 {
        return ClientAction::Nothing;
    }
    assert(ws[0] == parts@[0]@);
    if word_is(&parts[0], "create") && parts.len() >= 3 {
        let doc_id = parts[1].clone();
        let content = content_from(&parts, 2);
        return ClientAction::Publish {
            message: DocMessage::Create { client_id: client_id.clone(), doc_id, content },
        };
    }
    if word_is(&parts[0], "update") && parts.len() >= 4 {
        let old_version = parts[1].clone();
        let new_version = parts[2].clone();
        let content = content_from(&parts, 3);
        return ClientAction::Publish {
            message: DocMessage::Update {
                client_id: client_id.clone(),
                old_version,
                new_version,
                content,
            },
        };
    }
    ClientAction::Unrecognized
}

/// Whether a message on the documents channel comes from another client
/// than `own_id`, and so is worth showing to its user.
pub fn is_from_other(own_id: &String, msg: &DocMessage) -> (r: bool)
    ensures
        r == match msg {
            DocMessage::Create { client_id, .. } => client_id@ != own_id@,
            DocMessage::Update { client_id, .. } => client_id@ != own_id@,
            DocMessage::Notify { .. } => false,
        },
{
    match msg {
        DocMessage::Create { client_id, .. } => !(*client_id == *own_id),
        DocMessage::Update { client_id, .. } => !(*client_id == *own_id),
        DocMessage::Notify { .. } => false,
    }
}


/// The content of a command never holds a double quote.
pub proof fn lemma_content_has_no_quotes(s: Seq<char>)
    ensures
        forall|i: int| 0 <= i < without_quotes(s).len() ==> without_quotes(s)[i] != '"',
    decreases s.len(),
{
    if s.len() > 0 {
        let r = without_quotes(s.drop_last());
        lemma_content_has_no_quotes(s.drop_last());
        if s.last() != '"' {
            assert forall|i: int| 0 <= i < r.push(s.last()).len() implies r.push(s.last())[i] != '"' by {
                if i < r.len() {
                    assert(r.push(s.last())[i] == r[i]);
                }
            }
        }
    }
}


/// A text without double quotes loses nothing.
pub proof fn lemma_quote_free_text_is_kept(s: Seq<char>)
    requires
        forall|i: int| 0 <= i < s.len() ==> s[i] != '"',
    ensures
        without_quotes(s) == s,
    decreases s.len(),
{
    if s.len() > 0 {
        lemma_quote_free_text_is_kept(s.drop_last());
        assert(s.drop_last().push(s.last()) =~= s);
    }
}

/// Removing double quotes works piece by piece: the result for two texts
/// put together is the two results put together.
pub proof fn lemma_quotes_removed_piecewise(a: Seq<char>, b: Seq<char>)
    ensures
        without_quotes(a + b) == without_quotes(a) + without_quotes(b),
    decreases b.len(),
{
    if b.len() == 0 {
        assert(a + b =~= a);
        assert(without_quotes(b) =~= Seq::<char>::empty());
        assert(without_quotes(a) + without_quotes(b) =~= without_quotes(a));
    } else {
        lemma_quotes_removed_piecewise(a, b.drop_last());
        assert((a + b).drop_last() =~= a + b.drop_last());
        assert((a + b).last() == b.last());
        if b.last() == '"' {
        } else {
            assert(without_quotes(a) + without_quotes(b.drop_last()).push(b.last()) =~= (
            without_quotes(a) + without_quotes(b.drop_last())).push(b.last()));
        }
    }
}

/// Removing double quotes keeps every other character, in order: each
/// character is dropped when it is a double quote and kept otherwise.
pub proof fn lemma_quotes_removed_exactly(s: Seq<char>, c: char)
    ensures
        without_quotes(s.push(c)) == if c == '"' {
            without_quotes(s)
        } else {
            without_quotes(s) + seq![c]
        },
        without_quotes(seq![c]) == if c == '"' {
            Seq::<char>::empty()
        } else {
            seq![c]
        },
{
    assert(s.push(c).drop_last() =~= s);
    assert(seq![c].drop_last() =~= Seq::<char>::empty());
    assert(seq![c].last() == c);
    assert(without_quotes(Seq::<char>::empty()) == Seq::<char>::empty());
    assert(Seq::<char>::empty().push(c) =~= seq![c]);
    assert(without_quotes(s).push(c) =~= without_quotes(s) + seq![c]);
}

} // verus!
