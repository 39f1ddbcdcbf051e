//! Images in a prompt: where they go, and in which order their pieces come.

use vstd::prelude::*;
use vstd::string::*;

use crate::error::{
    bad_shape, is_bad_shape, is_unsupported_media, one, two, ModelError, Result,
};
use crate::text::{decimal, decimal_text};

verus! {

/// `count` times the same text.
pub open spec fn repeated(text: Seq<char>, count: int) -> Seq<char>
    decreases count,
{
    if count <= 0 {
        Seq::empty()
    } else {
        repeated(text, count - 1) + text
    }
}

/// The text that stands for one image in a prompt: an opening mark, one
/// placeholder for each token of the image, and a closing mark.
pub fn image_prompt_expansion(image_seq_len: usize) -> (text: String)
    ensures
        text@ == "<fake_token_around_image><global-img>"@ + repeated(
            "<image>"@,
            image_seq_len as int,
        ) + "<fake_token_around_image>"@,
{
    let mut text: String = "<fake_token_around_image><global-img>".to_owned();
    let ghost open = text@;
    assert(text@ =~= open + repeated("<image>"@, 0));
    let mut i: usize = 0;
    while i < image_seq_len
        invariant
            i <= image_seq_len,
            text@ == open + repeated("<image>"@, i as int),
        decreases image_seq_len - i,
    {
        text.append("<image>");
        i = i + 1;
        assert(text@ =~= open + repeated("<image>"@, i as int));
    }
    text.append("<fake_token_around_image>");
    text
}

/// A model without a vision tower takes no images.
pub fn reject_media(images: usize) -> (r: Result<()>)
    ensures
        r is Ok <==> images == 0,
        r matches Err(e) ==> is_unsupported_media(
            e,
            decimal(images as int) + " image(s) passed to a text-only model"@,
        ),
{
    if images == 0 {
        return Ok(());
    }
    let mut text: String = decimal_text(images);
    text.append(" image(s) passed to a text-only model");
    Err(ModelError::UnsupportedMedia(text))
}

/// The end of the run of `id` that `i` lies in.
pub open spec fn run_end(ids: Seq<i64>, id: i64, i: int) -> int
    decreases ids.len() - i,
{
    if 0 <= i < ids.len() && ids[i] == id {
        run_end(ids, id, i + 1)
    } else {
        i
    }
}

/// The runs of `id` from `i` on: first place and end of each, in order.
pub open spec fn spans_from(ids: Seq<i64>, id: i64, i: int) -> Seq<(usize, usize)>
    decreases ids.len() - i, 0int,
    when 0 <= i
    via spans_from_decreases
{
    if i >= ids.len() {
        Seq::empty()
    } else if ids[i] == id {
        seq![(i as usize, run_end(ids, id, i) as usize)] + spans_from(ids, id, run_end(ids, id, i))
    } else {
        spans_from(ids, id, i + 1)
    }
}

#[via_fn]
proof fn spans_from_decreases(ids: Seq<i64>, id: i64, i: int) {
    if 0 <= i < ids.len() && ids[i] == id {
        lemma_run_end(ids, id, i);
    }
}

/// A run ends behind its last `id`.
pub proof fn lemma_run_end(ids: Seq<i64>, id: i64, i: int)
    requires
        0 <= i <= ids.len(),
    ensures
        i <= run_end(ids, id, i) <= ids.len(),
        i < ids.len() && ids[i] == id ==> i < run_end(ids, id, i),
        forall|j: int| i <= j < run_end(ids, id, i) ==> #[trigger] ids[j] == id,
        run_end(ids, id, i) < ids.len() ==> ids[run_end(ids, id, i)] != id,
    decreases ids.len() - i,
{
    if i < ids.len() && ids[i] == id {
        lemma_run_end(ids, id, i + 1);
    }
}

/// A piece of an embedded prompt.
#[derive(Debug, Clone, Copy, PartialEq, Eq, Structural)]
pub enum Piece {
    /// `len` embedded tokens from `start` on.
    Text {
        /// First token.
        start: usize,
        /// Tokens.
        len: usize,
    },
    /// The features of an image.
    Image(usize),
}

/// The text between `from` and `to`, if there is any.
pub open spec fn text_piece(from: int, to: int) -> Seq<Piece> {
    if to > from {
        seq![Piece::Text { start: from as usize, len: (to - from) as usize }]
    } else {
        Seq::empty()
    }
}

/// The pieces of the first `count` spans and the text before them.
pub open spec fn pieces_until(spans: Seq<(usize, usize)>, count: int) -> Seq<Piece>
    decreases count,
{
    if count <= 0 {
        Seq::empty()
    } else {
        pieces_until(spans, count - 1) + text_piece(
            cursor_after(spans, count - 1),
            spans[count - 1].0 as int,
        ) + seq![Piece::Image((count - 1) as usize)]
    }
}

/// Where the text goes on after the first `count` spans.
pub open spec fn cursor_after(spans: Seq<(usize, usize)>, count: int) -> int {
    if count <= 0 {
        0
    } else {
        spans[count - 1].1 as int
    }
}

/// The pieces of a prompt of `seq` tokens.
pub open spec fn pieces_of(spans: Seq<(usize, usize)>, seq: int) -> Seq<Piece> {
    pieces_until(spans, spans.len() as int) + text_piece(
        cursor_after(spans, spans.len() as int),
        seq,
    )
}

/// What is said when the runs of image tokens are not as many as the images.
pub open spec fn wrong_count_text(spans: int, span_len: int, images: int) -> Seq<char> {
    "found "@ + decimal(spans) + " image-token span(s) of len "@ + decimal(span_len) + " but "@
        + decimal(images) + " image(s) were provided"@
}

/// What is said when a run of image tokens has the wrong length.
pub open spec fn wrong_length_text(len: int, span_len: int) -> Seq<char> {
    "image-token span has length "@ + decimal(len) + ", expected "@ + decimal(span_len)
}

/// Every run has the length of an image.
pub open spec fn all_spans_fit(spans: Seq<(usize, usize)>, span_len: int) -> bool {
    forall|i: int|
        0 <= i < spans.len() ==> (#[trigger] spans[i]).1 - spans[i].0 == span_len
}

/// The first run that has not the length of an image has length `len`.
pub open spec fn first_misfit(spans: Seq<(usize, usize)>, span_len: int, len: int) -> bool {
    exists|i: int|
        0 <= i < spans.len() && all_spans_fit(spans.take(i), span_len) && (
        #[trigger] spans[i]).1 - spans[i].0 == len && len != span_len
}

/// Finds the runs of `id`.
pub fn find_spans(ids: &Vec<i64>, id: i64) -> (spans: Vec<(usize, usize)>)
    ensures
        spans@ == spans_from(ids@, id, 0),
{
    let mut spans: Vec<(usize, usize)> = Vec::new();
    let mut i: usize = 0;
    let ghost all = spans_from(ids@, id, 0);
    assert(all =~= spans@ + spans_from(ids@, id, 0));
    while i < ids.len()
        invariant
            i <= ids@.len(),
            all == spans@ + spans_from(ids@, id, i as int),
        decreases ids@.len() - i,
    {
        if ids[i] == id {
            let start: usize = i;
            let ghost end = run_end(ids@, id, start as int);
            proof {
                lemma_run_end(ids@, id, start as int);
            }
            while i < ids.len() && ids[i] == id
                invariant
                    start <= i <= ids@.len(),
                    i <= end <= ids@.len(),
                    end == run_end(ids@, id, i as int),
                decreases ids@.len() - i,
            {
                i = i + 1;
                proof {
                    lemma_run_end(ids@, id, i as int);
                }
            }
            let ghost before = spans@;
            spans.push((start, i));
            assert(all =~= spans@ + spans_from(ids@, id, i as int)) by {
                assert(spans_from(ids@, id, start as int) =~= seq![(start, i)] + spans_from(
                    ids@,
                    id,
                    i as int,
                ));
            }
        } else {
            i = i + 1;
        }
    }
    assert(spans@ + spans_from(ids@, id, i as int) =~= spans@);
    spans
}

/// Splits a prompt into the pieces that are embedded: text as it is, and for
/// each run of image tokens the features of one image, in order.
///
/// Without images the whole prompt is text. Otherwise the runs of image tokens
/// must be as many as the images and as long as an image.
pub fn embed_multimodal(
    ids: &Vec<i64>,
    seq: usize,
    images: usize,
    image_id: i64,
    span_len: usize,
) -> (r: Result<Vec<Piece>>)
    ensures
        ({
            let spans = spans_from(ids@, image_id, 0);
            if images == 0 {
                r matches Ok(pieces) && pieces@ == text_piece(0, seq as int)
            } else if ids@.len() != seq {
                r matches Err(e) && is_bad_shape(
                    e,
                    "tokens"@,
                    seq![1usize, seq],
                    seq![ids@.len() as usize],
                )
            } else if spans.len() != images {
                r matches Err(e) && is_unsupported_media(
                    e,
                    wrong_count_text(spans.len() as int, span_len as int, images as int),
                )
            } else {
                match r {
                    Ok(pieces) => all_spans_fit(spans, span_len as int) && pieces@ == pieces_of(
                        spans,
                        seq as int,
                    ),
                    Err(e) => !all_spans_fit(spans, span_len as int) && exists|len: int|
                        first_misfit(spans, span_len as int, len) && is_unsupported_media(
                            e,
                            #[trigger] wrong_length_text(len, span_len as int),
                        ),
                }
            }
        }),
{
    if images == 0 {
        let mut pieces: Vec<Piece> = Vec::new();
        if seq > 0 {
            pieces.push(Piece::Text { start: 0, len: seq });
        }
        assert(pieces@ =~= text_piece(0, seq as int));
        return Ok(pieces);
    }
    if ids.len() != seq {
        return Err(bad_shape("tokens", two(1, seq), one(ids.len())));
    }
    let spans: Vec<(usize, usize)> = find_spans(ids, image_id);
    if spans.len() != images {
        let mut text: String = "found ".to_owned();
        text.append(decimal_text(spans.len()).as_str());
        text.append(" image-token span(s) of len ");
        text.append(decimal_text(span_len).as_str());
        text.append(" but ");
        text.append(decimal_text(images).as_str());
        text.append(" image(s) were provided");
        return Err(ModelError::UnsupportedMedia(text));
    }
    proof {
        law_spans_are_runs(ids@, image_id, 0);
    }
    let ghost all = spans@;
    let mut pieces: Vec<Piece> = Vec::new();
    let mut cursor: usize = 0;
    let mut k: usize = 0;
    while k < spans.len()
        invariant
            all == spans@,
            all == spans_from(ids@, image_id, 0),
            runs(ids@, image_id, 0, all),
            ids@.len() == seq,
            images > 0,
            all.len() == images,
            k <= all.len(),
            all_spans_fit(all.take(k as int), span_len as int),
            cursor == cursor_after(all, k as int),
            pieces@ == pieces_until(all, k as int),
        decreases all.len() - k,
    {
        let (start, end) = spans[k];
        assert(all[k as int] == (start, end));
        if end - start != span_len {
            let mut text: String = "image-token span has length ".to_owned();
            text.append(decimal_text(end - start).as_str());
            text.append(", expected ");
            text.append(decimal_text(span_len).as_str());
            proof {
                assert(first_misfit(all, span_len as int, end - start));
                assert(text@ =~= wrong_length_text(end - start, span_len as int));
            }
            return Err(ModelError::UnsupportedMedia(text));
        }
        if start > cursor {
            pieces.push(Piece::Text { start: cursor, len: start - cursor });
        }
        pieces.push(Piece::Image(k));
        cursor = end;
        proof {
            assert(pieces@ =~= pieces_until(all, k + 1));
            assert forall|i: int| 0 <= i < k + 1 implies (#[trigger] all.take(k + 1)[i]).1
                - all.take(k + 1)[i].0 == span_len by {
                if i < k {
                    assert(all.take(k + 1)[i] == all.take(k as int)[i]);
                }
            }
        }
        k = k + 1;
    }
    assert(all.take(k as int) =~= all);
    if cursor < seq {
        pieces.push(Piece::Text { start: cursor, len: seq - cursor });
    }
    assert(pieces@ =~= pieces_of(all, seq as int));
    Ok(pieces)
}

/// `spans` are the runs of `id` from `i` on: each is a run that cannot be
/// extended, they come in order, and every `id` from `i` on lies in one.
pub open spec fn runs(ids: Seq<i64>, id: i64, i: int, spans: Seq<(usize, usize)>) -> bool {
    &&& forall|k: int|
        0 <= k < spans.len() ==> i <= (#[trigger] spans[k]).0 < spans[k].1 <= ids.len()
    &&& forall|k: int, j: int|
        0 <= k < spans.len() && (#[trigger] spans[k]).0 <= j < spans[k].1 ==> #[trigger] ids[j]
            == id
    &&& forall|k: int, l: int|
        0 <= k < l < spans.len() ==> (#[trigger] spans[k]).1 < (#[trigger] spans[l]).0
    &&& forall|k: int|
        0 <= k < spans.len() ==> ((#[trigger] spans[k]).1 < ids.len() ==> ids[spans[k].1 as int]
            != id)
    &&& forall|j: int|
        i <= j < ids.len() && #[trigger] ids[j] == id ==> in_some_span(spans, j)
}

/// Place `j` lies in one of the spans.
pub open spec fn in_some_span(spans: Seq<(usize, usize)>, j: int) -> bool {
    exists|k: int| 0 <= k < spans.len() && (#[trigger] spans[k]).0 <= j < spans[k].1
}

/// The spans that are found are the runs of image tokens: as long as possible,
/// in order, and all of them.
pub proof fn law_spans_are_runs(ids: Seq<i64>, id: i64, i: int)
    requires
        0 <= i <= ids.len(),
        ids.len() <= usize::MAX,
    ensures
        runs(ids, id, i, spans_from(ids, id, i)),
    decreases ids.len() - i,
{
    let spans = spans_from(ids, id, i);
    if i < ids.len() {
        if ids[i] == id {
            let end = run_end(ids, id, i);
            lemma_run_end(ids, id, i);
            law_spans_are_runs(ids, id, end);
            let rest = spans_from(ids, id, end);
            assert(spans =~= seq![(i as usize, end as usize)] + rest);
            assert forall|k: int| 0 <= k < spans.len() implies i <= (#[trigger] spans[k]).0
                < spans[k].1 <= ids.len() by {
                if k > 0 {
                    assert(spans[k] == rest[k - 1]);
                }
            }
            assert forall|k: int, j: int|
                0 <= k < spans.len() && (#[trigger] spans[k]).0 <= j < spans[k].1 implies
                #[trigger] ids[j] == id by {
                if k > 0 {
                    assert(spans[k] == rest[k - 1]);
                }
            }
            assert forall|k: int, l: int| 0 <= k < l < spans.len() implies (
            #[trigger] spans[k]).1 < (#[trigger] spans[l]).0 by {
                assert(spans[l] == rest[l - 1]);
                if k > 0 {
                    assert(spans[k] == rest[k - 1]);
                } else if rest[l - 1].0 == end {
                    assert(ids[rest[l - 1].0 as int] == id);
                }
            }
            assert forall|k: int|
                0 <= k < spans.len() && (#[trigger] spans[k]).1 < ids.len() implies ids[spans[k].1 as int]
                != id by {
                if k > 0 {
                    assert(spans[k] == rest[k - 1]);
                }
            }
            assert forall|j: int| i <= j < ids.len() && #[trigger] ids[j] == id implies in_some_span(
                spans,
                j,
            ) by {
                if j < end {
                    assert(spans[0].0 <= j < spans[0].1);
                } else {
                    assert(in_some_span(rest, j));
                    let k = choose|k: int|
                        0 <= k < rest.len() && (#[trigger] rest[k]).0 <= j < rest[k].1;
                    assert(spans[k + 1] == rest[k]);
                }
            }
        } else {
            law_spans_are_runs(ids, id, i + 1);
        }
    }
}

/// Tokens that a piece stands for.
pub open spec fn piece_len(piece: Piece, span_len: int) -> int {
    match piece {
        Piece::Text { start, len } => len as int,
        Piece::Image(_) => span_len,
    }
}

/// Tokens that the pieces stand for together.
pub open spec fn pieces_len(pieces: Seq<Piece>, span_len: int) -> int
    decreases pieces.len(),
{
    if pieces.len() == 0 {
        0
    } else {
        pieces_len(pieces.drop_last(), span_len) + piece_len(pieces.last(), span_len)
    }
}

/// Pieces behind one another stand for as many tokens as both.
proof fn lemma_pieces_join(a: Seq<Piece>, b: Seq<Piece>, span_len: int)
    ensures
        pieces_len(a + b, span_len) == pieces_len(a, span_len) + pieces_len(b, span_len),
    decreases b.len(),
{
    if b.len() == 0 {
        assert(a + b =~= a);
    } else {
        assert((a + b).drop_last() =~= a + b.drop_last());
        lemma_pieces_join(a, b.drop_last(), span_len);
    }
}

/// A text piece stands for the tokens between its ends.
proof fn lemma_text_piece(from: int, to: int, span_len: int)
    requires
        0 <= from <= to <= usize::MAX,
    ensures
        pieces_len(text_piece(from, to), span_len) == to - from,
{
    let piece = text_piece(from, to);
    if to > from {
        assert(piece.drop_last() =~= Seq::empty());
        assert(pieces_len(piece.drop_last(), span_len) == 0);
    }
}

/// The pieces up to each span stand for exactly the tokens up to its end.
proof fn lemma_pieces_until(
    ids: Seq<i64>,
    id: i64,
    spans: Seq<(usize, usize)>,
    span_len: int,
    count: int,
)
    requires
        runs(ids, id, 0, spans),
        ids.len() <= usize::MAX,
        all_spans_fit(spans, span_len),
        0 <= count <= spans.len(),
    ensures
        pieces_len(pieces_until(spans, count), span_len) == cursor_after(spans, count),
        0 <= cursor_after(spans, count) <= ids.len(),
    decreases count,
{
    if count > 0 {
        lemma_pieces_until(ids, id, spans, span_len, count - 1);
        let before = pieces_until(spans, count - 1);
        let from = cursor_after(spans, count - 1);
        let to = spans[count - 1].0 as int;
        if count > 1 {
            assert(spans[count - 2].1 < spans[count - 1].0);
        }
        let text = text_piece(from, to);
        let image = seq![Piece::Image((count - 1) as usize)];
        lemma_text_piece(from, to, span_len);
        lemma_pieces_join(before, text, span_len);
        lemma_pieces_join(before + text, image, span_len);
        assert(image.drop_last() =~= Seq::empty());
        assert(pieces_len(image, span_len) == span_len) by {
            assert(pieces_len(image.drop_last(), span_len) == 0);
        }
        assert(spans[count - 1].1 - spans[count - 1].0 == span_len);
    }
}

/// The pieces of a prompt stand for exactly its tokens, none twice and none
/// left out.
pub proof fn law_pieces_cover_the_prompt(ids: Seq<i64>, id: i64, span_len: int)
    requires
        ids.len() <= usize::MAX,
        all_spans_fit(spans_from(ids, id, 0), span_len),
    ensures
        pieces_len(pieces_of(spans_from(ids, id, 0), ids.len() as int), span_len) == ids.len(),
{
    let spans = spans_from(ids, id, 0);
    law_spans_are_runs(ids, id, 0);
    lemma_pieces_until(ids, id, spans, span_len, spans.len() as int);
    let until = pieces_until(spans, spans.len() as int);
    let from = cursor_after(spans, spans.len() as int);
    lemma_text_piece(from, ids.len() as int, span_len);
    lemma_pieces_join(until, text_piece(from, ids.len() as int), span_len);
}

/// Every piece comes where its tokens are: text where it starts in the prompt,
/// and an image where its run of image tokens starts.
pub open spec fn in_place(pieces: Seq<Piece>, spans: Seq<(usize, usize)>, span_len: int) -> bool {
    forall|i: int| 0 <= i < pieces.len() ==> #[trigger] piece_in_place(pieces, spans, span_len, i)
}

/// Piece `i` comes where its tokens are.
pub open spec fn piece_in_place(
    pieces: Seq<Piece>,
    spans: Seq<(usize, usize)>,
    span_len: int,
    i: int,
) -> bool {
    let at = pieces_len(pieces.take(i), span_len);
    match pieces[i] {
        Piece::Text { start, len } => start == at,
        Piece::Image(k) => k < spans.len() && spans[k as int].0 == at,
    }
}

/// One more piece in place keeps all in place.
proof fn lemma_in_place_push(
    pieces: Seq<Piece>,
    piece: Piece,
    spans: Seq<(usize, usize)>,
    span_len: int,
)
    requires
        in_place(pieces, spans, span_len),
        match piece {
            Piece::Text { start, len } => start == pieces_len(pieces, span_len),
            Piece::Image(k) => k < spans.len() && spans[k as int].0 == pieces_len(
                pieces,
                span_len,
            ),
        },
    ensures
        in_place(pieces.push(piece), spans, span_len),
{
    let more = pieces.push(piece);
    assert forall|i: int| 0 <= i < more.len() implies #[trigger] piece_in_place(
        more,
        spans,
        span_len,
        i,
    ) by {
        if i < pieces.len() {
            assert(piece_in_place(pieces, spans, span_len, i));
            assert(more.take(i) =~= pieces.take(i));
        } else {
            assert(more.take(i) =~= pieces);
        }
    }
}

/// The text between two places comes where it starts.
proof fn lemma_in_place_text(
    pieces: Seq<Piece>,
    from: int,
    to: int,
    spans: Seq<(usize, usize)>,
    span_len: int,
)
    requires
        in_place(pieces, spans, span_len),
        pieces_len(pieces, span_len) == from,
        0 <= from <= to <= usize::MAX,
    ensures
        in_place(pieces + text_piece(from, to), spans, span_len),
        pieces_len(pieces + text_piece(from, to), span_len) == to,
{
    lemma_text_piece(from, to, span_len);
    lemma_pieces_join(pieces, text_piece(from, to), span_len);
    if to > from {
        let piece = Piece::Text { start: from as usize, len: (to - from) as usize };
        assert(pieces + text_piece(from, to) =~= pieces.push(piece));
        lemma_in_place_push(pieces, piece, spans, span_len);
    } else {
        assert(pieces + text_piece(from, to) =~= pieces);
    }
}

/// The pieces up to each span are in place.
proof fn lemma_in_place_until(
    ids: Seq<i64>,
    id: i64,
    spans: Seq<(usize, usize)>,
    span_len: int,
    count: int,
)
    requires
        runs(ids, id, 0, spans),
        ids.len() <= usize::MAX,
        spans.len() <= usize::MAX,
        all_spans_fit(spans, span_len),
        0 <= count <= spans.len(),
    ensures
        in_place(pieces_until(spans, count), spans, span_len),
    decreases count,
{
    if count > 0 {
        lemma_in_place_until(ids, id, spans, span_len, count - 1);
        lemma_pieces_until(ids, id, spans, span_len, count - 1);
        let before = pieces_until(spans, count - 1);
        let from = cursor_after(spans, count - 1);
        let to = spans[count - 1].0 as int;
        if count > 1 {
            assert(spans[count - 2].1 < spans[count - 1].0);
        }
        lemma_in_place_text(before, from, to, spans, span_len);
        let so_far = before + text_piece(from, to);
        let image = Piece::Image((count - 1) as usize);
        lemma_in_place_push(so_far, image, spans, span_len);
        assert(so_far + seq![image] =~= so_far.push(image));
    }
}

/// Embedding a prompt moves nothing: every piece of text keeps its place, and
/// every image takes the place of its run of image tokens.
pub proof fn law_pieces_stay_in_place(ids: Seq<i64>, id: i64, span_len: int)
    requires
        ids.len() <= usize::MAX,
        all_spans_fit(spans_from(ids, id, 0), span_len),
    ensures
        in_place(
            pieces_of(spans_from(ids, id, 0), ids.len() as int),
            spans_from(ids, id, 0),
            span_len,
        ),
{
    let spans = spans_from(ids, id, 0);
    law_spans_are_runs(ids, id, 0);
    lemma_spans_count(ids, id, 0);
    let count = spans.len() as int;
    lemma_in_place_until(ids, id, spans, span_len, count);
    lemma_pieces_until(ids, id, spans, span_len, count);
    lemma_in_place_text(
        pieces_until(spans, count),
        cursor_after(spans, count),
        ids.len() as int,
        spans,
        span_len,
    );
}

/// There are no more spans than tokens.
proof fn lemma_spans_count(ids: Seq<i64>, id: i64, i: int)
    requires
        0 <= i <= ids.len(),
    ensures
        spans_from(ids, id, i).len() <= ids.len() - i,
    decreases ids.len() - i,
{
    if i < ids.len() {
        if ids[i] == id {
            lemma_run_end(ids, id, i);
            lemma_spans_count(ids, id, run_end(ids, id, i));
        } else {
            lemma_spans_count(ids, id, i + 1);
        }
    }
}

/// The patch that comes at place `i` when groups of `s` by `s` patches of a
/// square of `side` patches are put together: group after group, and within a
/// group row after row.
pub open spec fn shuffled(side: int, s: int, i: int) -> int {
    let token = i / (s * s);
    let place = i % (s * s);
    let row = token / (side / s) * s + place / s;
    let col = token % (side / s) * s + place % s;
    row * side + col
}

/// The order in which the patches of a square are put together into tokens.
pub fn pixel_shuffle(side: usize, s: usize) -> (order: Vec<usize>)
    requires
        s > 0,
        side % s == 0,
        side * side <= usize::MAX,
    ensures
        order@ == Seq::new((side * side) as nat, |i: int| shuffled(side as int, s as int, i) as usize),
        forall|i: int|
            0 <= i < side * side ==> 0 <= #[trigger] shuffled(side as int, s as int, i) < side
                * side,
{
    let seq: usize = side * side;
    let mut order: Vec<usize> = Vec::new();
    let mut i: usize = 0;
    proof {
        if seq > 0 {
            lemma_group_fits(side as int, s as int);
        }
        assert forall|j: int| 0 <= j < seq implies 0 <= #[trigger] shuffled(
            side as int,
            s as int,
            j,
        ) < seq by {
            lemma_shuffled(side as int, s as int, j);
        }
    }
    while i < seq
        invariant
            i <= seq,
            seq == side * side,
            s > 0,
            side % s == 0,
            order@ == Seq::new(i as nat, |j: int| shuffled(side as int, s as int, j) as usize),
        decreases seq - i,
    {
        proof {
            lemma_group_fits(side as int, s as int);
            lemma_shuffled(side as int, s as int, i as int);
        }
        let group: usize = s * s;
        let groups: usize = side / s;
        let token: usize = i / group;
        let place: usize = i % group;
        let row: usize = token / groups * s + place / s;
        let col: usize = token % groups * s + place % s;
        order.push(row * side + col);
        i = i + 1;
        assert(order@ =~= Seq::new(i as nat, |j: int| shuffled(side as int, s as int, j) as usize));
    }
    order
}

/// A group is no larger than the square.
proof fn lemma_group_fits(side: int, s: int)
    requires
        s > 0,
        side > 0 || side * side > 0,
        side >= 0,
        side % s == 0,
    ensures
        side > 0,
        side / s >= 1,
        side == (side / s) * s,
        0 < s * s <= side * side,
{
    assert(side > 0) by (nonlinear_arith)
        requires
            side >= 0,
            side > 0 || side * side > 0,
    ;
    vstd::arithmetic::div_mod::lemma_fundamental_div_mod(side, s);
    let g = side / s;
    assert(s * g == g * s) by (nonlinear_arith);
    assert(g >= 1) by (nonlinear_arith)
        requires
            g * s == side,
            side > 0,
            s > 0,
    ;
    assert(s <= side) by (nonlinear_arith)
        requires
            g * s == side,
            g >= 1,
            s > 0,
    ;
    assert(0 < s * s <= side * side) by (nonlinear_arith)
        requires
            0 < s <= side,
    ;
}

/// Where a patch comes from: all parts of its place are in range.
proof fn lemma_shuffled(side: int, s: int, i: int)
    requires
        s > 0,
        side >= 0,
        side % s == 0,
        0 <= i < side * side,
    ensures
        0 <= i / (s * s) / (side / s) * s,
        0 <= i / (s * s) / (side / s) * s + i % (s * s) / s < side,
        0 <= i / (s * s) % (side / s) * s,
        0 <= i / (s * s) % (side / s) * s + i % (s * s) % s < side,
        0 <= shuffled(side, s, i) < side * side,
        0 <= (i / (s * s) / (side / s) * s + i % (s * s) / s) * side,
{
    lemma_group_fits(side, s);
    let g = side / s;
    let area = s * s;
    let token = i / area;
    let place = i % area;
    vstd::arithmetic::div_mod::lemma_fundamental_div_mod(i, area);
    vstd::arithmetic::div_mod::lemma_mod_bound(i, area);
    assert(0 <= token < g * g) by (nonlinear_arith)
        requires
            i == area * token + place,
            0 <= place < area,
            0 <= i < side * side,
            side == g * s,
            area == s * s,
            s > 0,
            g >= 1,
    ;
    let tr = token / g;
    let tc = token % g;
    vstd::arithmetic::div_mod::lemma_fundamental_div_mod(token, g);
    vstd::arithmetic::div_mod::lemma_mod_bound(token, g);
    assert(0 <= tr < g) by (nonlinear_arith)
        requires
            token == g * tr + tc,
            0 <= tc < g,
            0 <= token < g * g,
            g >= 1,
    ;
    let pr = place / s;
    let pc = place % s;
    vstd::arithmetic::div_mod::lemma_fundamental_div_mod(place, s);
    vstd::arithmetic::div_mod::lemma_mod_bound(place, s);
    assert(0 <= pr < s) by (nonlinear_arith)
        requires
            place == s * pr + pc,
            0 <= pc < s,
            0 <= place < s * s,
            s > 0,
    ;
    let row = tr * s + pr;
    let col = tc * s + pc;
    assert(0 <= tr * s && row < side) by (nonlinear_arith)
        requires
            0 <= tr,
            tr + 1 <= g,
            0 <= pr < s,
            side == g * s,
            row == tr * s + pr,
    ;
    assert(0 <= tc * s && col < side) by (nonlinear_arith)
        requires
            0 <= tc,
            tc + 1 <= g,
            0 <= pc < s,
            side == g * s,
            col == tc * s + pc,
    ;
    assert(0 <= row * side && row * side + col < side * side) by (nonlinear_arith)
        requires
            0 <= row,
            row + 1 <= side,
            0 <= col < side,
    ;
}

/// No patch is put together twice, so that every patch comes in exactly one
/// token.
pub proof fn law_pixel_shuffle_is_a_permutation(side: int, s: int, i: int, j: int)
    requires
        s > 0,
        side >= 0,
        side % s == 0,
        0 <= i < side * side,
        0 <= j < side * side,
        shuffled(side, s, i) == shuffled(side, s, j),
    ensures
        i == j,
{
    lemma_group_fits(side, s);
    lemma_shuffled(side, s, i);
    lemma_shuffled(side, s, j);
    let g = side / s;
    let area = s * s;
    let (ti, pi) = (i / area, i % area);
    let (tj, pj) = (j / area, j % area);
    let (ri, ci) = (ti / g * s + pi / s, ti % g * s + pi % s);
    let (rj, cj) = (tj / g * s + pj / s, tj % g * s + pj % s);
    vstd::arithmetic::div_mod::lemma_fundamental_div_mod_converse(ri * side + ci, side, ri, ci);
    vstd::arithmetic::div_mod::lemma_fundamental_div_mod_converse(rj * side + cj, side, rj, cj);
    assert(ri == rj && ci == cj);
    vstd::arithmetic::div_mod::lemma_fundamental_div_mod(pi, s);
    vstd::arithmetic::div_mod::lemma_fundamental_div_mod(pj, s);
    vstd::arithmetic::div_mod::lemma_mod_bound(pi, s);
    vstd::arithmetic::div_mod::lemma_mod_bound(pj, s);
    vstd::arithmetic::div_mod::lemma_mod_bound(i, area);
    vstd::arithmetic::div_mod::lemma_mod_bound(j, area);
    assert(0 <= pi / s < s) by (nonlinear_arith)
        requires
            pi == s * (pi / s) + pi % s,
            0 <= pi % s < s,
            0 <= pi < s * s,
            s > 0,
    ;
    assert(0 <= pj / s < s) by (nonlinear_arith)
        requires
            pj == s * (pj / s) + pj % s,
            0 <= pj % s < s,
            0 <= pj < s * s,
            s > 0,
    ;
    vstd::arithmetic::div_mod::lemma_fundamental_div_mod_converse(ri, s, ti / g, pi / s);
    vstd::arithmetic::div_mod::lemma_fundamental_div_mod_converse(rj, s, tj / g, pj / s);
    vstd::arithmetic::div_mod::lemma_fundamental_div_mod_converse(ci, s, ti % g, pi % s);
    vstd::arithmetic::div_mod::lemma_fundamental_div_mod_converse(cj, s, tj % g, pj % s);
    vstd::arithmetic::div_mod::lemma_fundamental_div_mod(ti, g);
    vstd::arithmetic::div_mod::lemma_fundamental_div_mod(tj, g);
    vstd::arithmetic::div_mod::lemma_fundamental_div_mod(i, area);
    vstd::arithmetic::div_mod::lemma_fundamental_div_mod(j, area);
}

/// The side of a square of `seq` patches, if they make up one.
pub fn square_side(seq: usize) -> (side: Option<usize>)
    ensures
        side matches Some(n) ==> n * n == seq,
        side is None ==> forall|n: int| 0 <= n ==> #[trigger] (n * n) != seq,
{
    let mut n: usize = 0;
    loop
        invariant
            n == 0 || (n - 1) * (n - 1) < seq,
        decreases usize::MAX - n,
    {
        match n.checked_mul(n) {
            Some(square) => {
                if square == seq {
                    return Some(n);
                }
                if square > seq {
                    proof {
                        lemma_between_squares(n as int, seq as int);
                    }
                    return None;
                }
                proof {
                    assert(n < usize::MAX) by (nonlinear_arith)
                        requires
                            n * n < usize::MAX,
                            n >= 0,
                            usize::MAX >= 1,
                    ;
                }
                n = n + 1;
            },
            None => {
                proof {
                    lemma_between_squares(n as int, seq as int);
                }
                return None;
            },
        }
    }
}

/// A number between the squares of two neighbours is no square.
proof fn lemma_between_squares(n: int, seq: int)
    requires
        n >= 0,
        n == 0 || (n - 1) * (n - 1) < seq,
        n * n > seq,
    ensures
        forall|m: int| 0 <= m ==> #[trigger] (m * m) != seq,
{
    assert forall|m: int| 0 <= m implies #[trigger] (m * m) != seq by {
        if m >= n {
            assert(m * m >= n * n) by (nonlinear_arith)
                requires
                    m >= n,
                    n >= 0,
            ;
        } else {
            assert(m * m <= (n - 1) * (n - 1)) by (nonlinear_arith)
                requires
                    0 <= m <= n - 1,
            ;
        }
    }
}

/// A repeated text holds the text once for each time, one behind the other.
pub proof fn law_repeated_text(text: Seq<char>, count: int, k: int)
    requires
        0 <= k < count,
    ensures
        repeated(text, count).len() == count * text.len(),
        k * text.len() + text.len() <= count * text.len(),
        repeated(text, count).subrange(
            (k * text.len()) as int,
            (k * text.len() + text.len()) as int,
        ) == text,
    decreases count,
{
    let len = text.len() as int;
    lemma_repeated_len(text, count - 1);
    lemma_repeated_len(text, count);
    assert(count * len == (count - 1) * len + len) by (nonlinear_arith);
    assert(0 <= k * len && k * len + len <= count * len) by (nonlinear_arith)
        requires
            0 <= k <= count - 1,
            len >= 0,
    ;
    if k < count - 1 {
        law_repeated_text(text, count - 1, k);
        assert(repeated(text, count).subrange(k * len, k * len + len) =~= repeated(
            text,
            count - 1,
        ).subrange(k * len, k * len + len));
    } else {
        assert(repeated(text, count).subrange(k * len, k * len + len) =~= text);
    }
}

/// The length of a repeated text.
proof fn lemma_repeated_len(text: Seq<char>, count: int)
    requires
        0 <= count,
    ensures
        repeated(text, count).len() == count * text.len(),
    decreases count,
{
    if count > 0 {
        lemma_repeated_len(text, count - 1);
        assert(count * text.len() == (count - 1) * text.len() + text.len()) by (nonlinear_arith);
    } else {
        assert(0 * text.len() == 0) by (nonlinear_arith);
    }
}

/// The tokens of an image go through its groups row by row, and a token holds the
/// patches of its square, row by row: place `(y, x)` of the group in row `gy` and
/// column `gx` of groups is the patch in row `gy * s + y` and column `gx * s + x`.
pub proof fn law_token_is_a_square_of_patches(
    side: int,
    s: int,
    gy: int,
    gx: int,
    y: int,
    x: int,
)
    requires
        s > 0,
        side > 0,
        side % s == 0,
        0 <= gy < side / s,
        0 <= gx < side / s,
        0 <= y < s,
        0 <= x < s,
    ensures
        shuffled(side, s, (gy * (side / s) + gx) * (s * s) + (y * s + x)) == (gy * s + y) * side + (
        gx * s + x),
{
    let g = side / s;
    let token = gy * g + gx;
    let place = y * s + x;
    let area = s * s;
    assert(0 <= place < area) by (nonlinear_arith)
        requires
            0 <= y < s,
            0 <= x < s,
            place == y * s + x,
            area == s * s,
    ;
    vstd::arithmetic::div_mod::lemma_fundamental_div_mod_converse(
        token * area + place,
        area,
        token,
        place,
    );
    vstd::arithmetic::div_mod::lemma_fundamental_div_mod_converse(place, s, y, x);
    vstd::arithmetic::div_mod::lemma_fundamental_div_mod_converse(token, g, gy, gx);
}

/// What is said of runs of image tokens that do not go with the images.
pub proof fn law_image_complaints(spans: int, len: int, span_len: int, images: int)
    ensures
        wrong_count_text(spans, span_len, images) == "found "@ + decimal(spans)
            + " image-token span(s) of len "@ + decimal(span_len) + " but "@ + decimal(images)
            + " image(s) were provided"@,
        wrong_length_text(len, span_len) == "image-token span has length "@ + decimal(len)
            + ", expected "@ + decimal(span_len),
{
}

/// The text between two places is one piece that starts at the first and ends at
/// the second, and none where nothing lies between.
pub proof fn law_text_between(from: int, to: int)
    requires
        0 <= from,
        to <= usize::MAX,
    ensures
        to <= from ==> text_piece(from, to).len() == 0,
        from < to ==> text_piece(from, to).len() == 1 && match text_piece(from, to)[0] {
            Piece::Text { start, len } => start == from && start + len == to,
            Piece::Image(_) => false,
        },
{
}

/// The run that is complained about is the first that has not the length of an
/// image: there is one of that length, and no other length is the first.
pub proof fn law_first_misfit(
    spans: Seq<(usize, usize)>,
    span_len: int,
    len: int,
    other: int,
)
    requires
        first_misfit(spans, span_len, len),
    ensures
        len != span_len,
        exists|i: int| 0 <= i < spans.len() && (#[trigger] spans[i]).1 - spans[i].0 == len,
        first_misfit(spans, span_len, other) ==> other == len,
{
    let i = choose|i: int|
        0 <= i < spans.len() && all_spans_fit(spans.take(i), span_len) && (
        #[trigger] spans[i]).1 - spans[i].0 == len && len != span_len;
    assert(spans[i].1 - spans[i].0 == len);
    if first_misfit(spans, span_len, other) {
        let k = choose|k: int|
            0 <= k < spans.len() && all_spans_fit(spans.take(k), span_len) && (
            #[trigger] spans[k]).1 - spans[k].0 == other && other != span_len;
        if k < i {
            assert(spans.take(i)[k] == spans[k]);
        } else if i < k {
            assert(spans.take(k)[i] == spans[i]);
        }
    }
}

} // verus!
