# carokia

The decision logic of an autonomous robot brain, verified with Verus.

`src/` is the verified library: behaviors and the decision engine's
ordering, threat escalation, patrol routes, event triggers, bounded
short-term memory and its recall order, the rows of the SQLite store,
conversation history, the chain-of-thought session, tool registry and shell allowlist, planning rules
and plan resolution, the text formats read from model answers (JSON plans,
reasoning steps, object lists, face reports, arithmetic tokens) and the
character grid of the simulation view, and the steps of the engine's tick.
Each public function states its result in its `ensures`, except those whose
result is the clock's reading or a unit value with nothing to tell; the laws
that relate several calls are public proof functions.

`app/` is the runtime around it: model and HTTP clients, SQLite storage,
camera and microphone capture, speech recognition, the floating-point
simulation physics and emotional state, and the asynchronous main loop.

`tests/` exercises the library on concrete values.
