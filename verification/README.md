# language

Verified pieces of a small language's toolchain, written in Verus.

- `src/effects.rs`: the checker's view of program effects (operations, array
  literals, opaque effects) and of declared operations, with their
  mathematical models.
- `src/pattern.rs`: operation patterns as UTF-8 bytes (`{}` operand slots,
  `{+}` spread slots): combining two patterns, the candidates a combination is
  looked up under, and what is left once a front part has matched.
- `src/operator.rs`: regrouping two operations by priority, and the proof
  that regrouping keeps every operand in order.
- `src/check.rs`: checking an operation as a state machine that asks for
  operation lookups one at a time; each step has an exact specification, and
  the laws bound the number of lookups, and show that every operand reaches
  the call in the order written where the called pattern has no `{+}` slot
  and no array literal is involved (an array literal whose last item does
  not combine is dropped from the operands).
- `src/string_internal.rs`: the string methods compiled directly, and the
  instruction sequence each one is lowered to, proved well formed.
- `src/machine.rs`: what those instruction sequences compute on a model of
  memory made of blocks of 64-bit cells. A cast returns its parameter,
  `char + u64` returns a fresh cell holding the sum wrapped around at 2^64,
  and the three string joins each write
  their terminator one cell past the block they allocate, which the model
  reports as a fault for every input.
- `src/tokens.rs`: collecting a file's tokens up to and including its
  end-of-file token.
- `src/resolver.rs`: the resolver of imported names and generic parameters.

`app/` holds what the library leaves to its caller: the asynchronous loop that
performs the lookups, and the emission of the lowered instructions through
inkwell.
