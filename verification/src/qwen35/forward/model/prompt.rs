//! A whole prompt, chunk by chunk. Only the last chunk asks for logits.

use super::pass::{
    advanced, begun_by, chunk_error, chunk_pass, embed_steps, is_segment, moved, Segment,
};
use super::{Model, ModelState, CHUNK_CAP};
use crate::bytes::copy_tokens;
use crate::error::RocmlError;
use crate::qwen35::cache::hybrid::{AttnCacheModel, HybridModel};
use crate::qwen35::cache::layout::appended_each;
use crate::qwen35::forward::layer::{layer_appended, Profile};
use vstd::prelude::*;

verus! {

/// Tokens of a prompt that are processed together.
pub const PREFILL_CHUNK_SIZE: u32 = 512;

/// Where the chunk that starts at `done` ends.
pub open spec fn chunk_end(done: int, len: int) -> int {
    if done + PREFILL_CHUNK_SIZE < len {
        done + PREFILL_CHUNK_SIZE
    } else {
        len
    }
}

/// The chunks of a prompt follow each other without gaps, none is empty or
/// longer than the chunk buffers, and they end with the prompt.
pub proof fn law_chunks_cover_the_prompt(done: int, len: int)
    requires
        0 <= done < len,
    ensures
        done < chunk_end(done, len) <= len,
        chunk_end(done, len) - done <= CHUNK_CAP,
        chunk_end(done, len) < len ==> chunk_end(done, len) - done == PREFILL_CHUNK_SIZE,
{
}

/// The cache after `n` tokens, one pass each.
pub open spec fn tokens_taken(m: HybridModel, pos: int, n: nat) -> HybridModel
    decreases n,
{
    if n == 0 {
        m
    } else {
        tokens_taken(advanced(m, pos, 1, 0, m.attn.len() as int), pos + 1, (n - 1) as nat)
    }
}

/// The cache after the rest of a prompt, one pass a chunk.
pub open spec fn chunks_taken(m: HybridModel, pos: int, done: int, len: int) -> HybridModel
    decreases len - done,
{
    if done >= len {
        m
    } else {
        let end = chunk_end(done, len);
        chunks_taken(
            advanced(m, pos, (end - done) as nat, 0, m.attn.len() as int),
            pos + (end - done),
            end,
            len,
        )
    }
}

proof fn lemma_layer_split(a: Option<AttnCacheModel>, pos: int, n: nat)
    requires
        n > 0,
    ensures
        layer_appended(a, pos, n) == layer_appended(
            layer_appended(a, pos, 1),
            pos + 1,
            (n - 1) as nat,
        ),
{
    match a {
        Some(AttnCacheModel::Mixed(m)) => {
            reveal_with_fuel(appended_each, 2);
            let k: nat = (n - 1) as nat;
            let once = m.with_layout(appended_each(m.layout, pos, 1));
            assert(m.with_layout(appended_each(m.layout, pos, n)) =~= once.with_layout(
                appended_each(once.layout, pos + 1, k),
            ));
        },
        _ => {},
    }
}

/// A chunk's pass leaves the cache as that many single-token passes do.
pub proof fn law_chunk_advances_as_its_tokens_do(m: HybridModel, pos: int, n: nat)
    ensures
        advanced(m, pos, n, 0, m.attn.len() as int) == tokens_taken(m, pos, n),
    decreases n,
{
    let all = m.attn.len() as int;
    if n == 0 {
        assert forall|i: int| 0 <= i < all implies layer_appended(m.attn[i], pos, 0)
            == m.attn[i] by {
            match m.attn[i] {
                Some(AttnCacheModel::Mixed(p)) => {
                    assert(p.with_layout(p.layout) =~= p);
                },
                _ => {},
            }
        }
        assert(advanced(m, pos, n, 0, all).attn =~= m.attn);
    } else {
        let k: nat = (n - 1) as nat;
        let once = advanced(m, pos, 1, 0, all);
        law_chunk_advances_as_its_tokens_do(once, pos + 1, k);
        assert forall|i: int| 0 <= i < all implies layer_appended(m.attn[i], pos, n)
            == layer_appended(once.attn[i], pos + 1, k) by {
            lemma_layer_split(m.attn[i], pos, n);
        }
        assert(advanced(m, pos, n, 0, all).attn =~= advanced(once, pos + 1, k, 0, all).attn);
    }
}

proof fn lemma_tokens_concat(m: HybridModel, pos: int, a: nat, b: nat)
    ensures
        tokens_taken(tokens_taken(m, pos, a), pos + a, b) == tokens_taken(m, pos, a + b),
    decreases a,
{
    if a > 0 {
        let once = advanced(m, pos, 1, 0, m.attn.len() as int);
        let k: nat = (a - 1) as nat;
        lemma_tokens_concat(once, pos + 1, k, b);
        assert(k + b == (a + b - 1) as nat);
    }
}

/// A prompt in chunks leaves the cache as its tokens one by one do.
pub proof fn law_prompt_advances_as_its_tokens_do(m: HybridModel, pos: int, done: int, len: int)
    requires
        0 <= done <= len,
    ensures
        chunks_taken(m, pos, done, len) == tokens_taken(m, pos, (len - done) as nat),
    decreases len - done,
{
    if done < len {
        let end = chunk_end(done, len);
        let n: nat = (end - done) as nat;
        law_chunk_advances_as_its_tokens_do(m, pos, n);
        law_prompt_advances_as_its_tokens_do(
            advanced(m, pos, n, 0, m.attn.len() as int),
            pos + n,
            end,
            len,
        );
        lemma_tokens_concat(m, pos, n, (len - end) as nat);
        assert(n + (len - end) as nat == (len - done) as nat);
    }
}

/// What planning the next chunk of a prompt does. Only the last chunk gives
/// logits, and only that one is recorded.
pub open spec fn prompt_step(
    s: ModelState,
    t: ModelState,
    ids: Seq<u32>,
    done: int,
    profile: Profile,
    capture: bool,
    r: Result<Option<(Segment, usize)>, RocmlError>,
) -> bool {
    let len = ids.len() as int;
    let n = (chunk_end(done, len) - done) as nat;
    match r {
        Err(e) => done < len && chunk_error(s, n) == Some(e@) && t == s,
        Ok(None) => done == len && t == s,
        Ok(Some((seg, end))) => {
            let p = chunk_pass(n as u32, end == len, profile, capture && end == len);
            &&& done < len
            &&& end == chunk_end(done, len)
            &&& chunk_error(s, n) is None
            &&& t == moved(begun_by(s, p), p, 0)
            &&& is_segment(
                begun_by(s, p),
                p,
                0,
                embed_steps(s.config, p),
                ids.subrange(done, end as int),
                seg,
            )
        },
    }
}

impl Model {
    fn next_chunk(
        &mut self,
        prompt_ids: &[u32],
        done: usize,
        profile: Profile,
        capture: bool,
    ) -> (r: Result<Option<(Segment, usize)>, RocmlError>)
        requires
            old(self).wf(),
            old(self)@.begun is None,
            old(self)@.settled(),
            done <= prompt_ids@.len(),
        ensures
            final(self).wf(),
            prompt_step(
                old(self)@,
                final(self)@,
                prompt_ids@,
                done as int,
                profile,
                capture,
                r,
            ),
    {
        let len: usize = prompt_ids.len();
        if done == len {
            return Ok(None);
        }
        let end: usize = if len - done > PREFILL_CHUNK_SIZE as usize {
            done + PREFILL_CHUNK_SIZE as usize
        } else {
            len
        };
        let last: bool = end == len;
        let chunk = copy_tokens(prompt_ids, done, end);
        match self.forward_chunk(chunk.as_slice(), last, profile, capture && last) {
            Err(e) => Err(e),
            Ok(None) => Ok(None),
            Ok(Some(seg)) => Ok(Some((seg, end))),
        }
    }

    /// Plans the next chunk of a prompt of which `done` tokens have been
    /// processed, and tells where it ends; nothing once the prompt is done.
    pub fn forward_prompt_chunked(
        &mut self,
        prompt_ids: &[u32],
        done: usize,
        profile: Profile,
    ) -> (r: Result<Option<(Segment, usize)>, RocmlError>)
        requires
            old(self).wf(),
            old(self)@.begun is None,
            old(self)@.settled(),
            done <= prompt_ids@.len(),
        ensures
            final(self).wf(),
            prompt_step(
                old(self)@,
                final(self)@,
                prompt_ids@,
                done as int,
                profile,
                false,
                r,
            ),
    {
        self.next_chunk(prompt_ids, done, profile, false)
    }

    /// [`Self::forward_prompt_chunked`] with the last chunk's activations
    /// recorded.
    pub fn forward_prompt_chunked_captured(
        &mut self,
        prompt_ids: &[u32],
        done: usize,
        profile: Profile,
    ) -> (r: Result<Option<(Segment, usize)>, RocmlError>)
        requires
            old(self).wf(),
            old(self)@.begun is None,
            old(self)@.settled(),
            done <= prompt_ids@.len(),
        ensures
            final(self).wf(),
            prompt_step(
                old(self)@,
                final(self)@,
                prompt_ids@,
                done as int,
                profile,
                true,
                r,
            ),
    {
        self.next_chunk(prompt_ids, done, profile, true)
    }

    /// Plans the next chunk of a prompt, whatever the cache is made of.
    pub fn forward_prompt(&mut self, prompt_ids: &[u32], done: usize, profile: Profile) -> (r:
        Result<Option<(Segment, usize)>, RocmlError>)
        requires
            old(self).wf(),
            old(self)@.begun is None,
            old(self)@.settled(),
            done <= prompt_ids@.len(),
        ensures
            final(self).wf(),
            prompt_step(
                old(self)@,
                final(self)@,
                prompt_ids@,
                done as int,
                profile,
                false,
                r,
            ),
    {
        self.forward_prompt_chunked(prompt_ids, done, profile)
    }
}

} // verus!
