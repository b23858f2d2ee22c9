# ARCA

ARCA is a language-model engine built from a byte-level BPE tokenizer, a
multi-scale encoder, a liquid reservoir, plastic memory layers and a sparse
output head, run on the GPU.

`src/` is the verified library. It holds

- the tokenizer (`merge`, `pairs`, `vocab`, `tokenizer`) and its stored form
  (`hex`, `payload`),
- model files (`machine`, `layout`, `sovereign`, `writer`, `round_trip`) and the
  weights of a system (`audit`, `system`, `init`, `names`, `save`),
- the choice of tokens (`ieee`, `memory`, `sampling`, `generation`),
- what the encoder and the router draw on (`encoder`, `metabolic_core`),
- the plans of the GPU pipelines (`gpu`, `gpu_context`,
  `gpu_inference_context`, `device`),
- the course of training runs (`train`) and the command line (`cli`).

Values of 32-bit floating point are held there as their bit patterns; floating
point itself, files, the device and the Python bindings are in `app/`, which
follows the plans of the library.

What is not proved is in three functions: `pairs::count_pairs` (rayon),
`machine::memory_bytes` (bytemuck) and `sovereign::utf8_text` (the standard
library). Each states what it takes on trust.
