# r_calc

The logic of a pocket calculator for probability distributions (R style
`pnorm`, `dbinom`, ...), built around a 2x16 character LCD and a 4x5 key
matrix, with its behaviour proved by Verus.

- `src/tokens.rs`: the tokens that keys produce, and how they are shown.
- `src/display.rs`: how a token buffer is laid out on the two display lines.
- `src/calculadora.rs`: the calculator state: token buffer, cursor, displays.
- `src/keys.rs`: what each key does, key scans, LCD frames.
- `src/stack.rs`: a fixed-capacity stack.
- `src/order.rs`: operator precedence.
- `src/computacio.rs`: conversion of the typed expression to postfix.
- `src/combinatoria.rs`: factorial and binomial coefficients.
- `src/i2c.rs`: the line steps of a hand-driven I2C transfer.
- `src/laws.rs`: properties that relate several operations.
- `app/`: the firmware around the library: pins, LCD driver, float maths.
