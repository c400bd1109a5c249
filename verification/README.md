# hlm

A candlestick price overlay for Wayland compositors: it shows the newest
candles of one asset from the Hyperliquid candle feed in a small,
click-through window in a corner of the screen.

```
hlm BTC
hlm xyz:CL -c m5
```

Options: `-c` the interval (`m1 m3 m5 m15 m30 h1 h2 h4 h8 h12 d1 d3 w1 M1`,
default `m1`), `-w` the window width in logical pixels (default `160`).

## Layout

- `src/` is the library, verified with Verus:
  - `cli.rs`: intervals, their names on the command line and at the service,
    and their lengths;
  - `feed.rs`: candles, the bootstrap request window, the stable sort that
    picks the newest candles, the choice of the candle a feed message carries,
    and the reconnection decisions of the live feed (pauses that double up to
    30 seconds);
  - `state.rs`: the window of the newest candles and the price precision
    learned from the feed;
  - `render.rs`, `window.rs`: the integer parts of drawing (colour channels,
    header text) and the conversion of premultiplied RGBA pixels into the
    compositor's ARGB8888 layout.
- `app/` is the program around it: argument parsing, the HTTP and WebSocket
  connections, JSON decoding, floating-point drawing and the Wayland surface.
- `tests/` runs the library on concrete values.
