# mood

Ambient lighting for a Philips Hue entertainment area: the colours near the left and
right edges of the screen are averaged and streamed to two lamps over DTLS.

The library (`src/`, verified with Verus) holds the logic:

- `frame`: averaging the two screen strips of a BGRx frame, and normalising captured
  buffers to RGBA;
- `hue`: the entertainment stream packet, bridge URLs, the session parameters (with the
  pre-shared key decoded from hexadecimal by the `hex` crate), and which lamp settings
  to restore afterwards;
- `settings`: the configuration fields and secrets, their lookup, the configuration file
  (a JSON object of strings, read and written with `serde_json`), and how values from the
  configuration file, the environment, the keyring and the user are combined;
- `session`: loading the settings and the setup dialogue as step functions that say what
  to read, ask or write next;
- `text`: comparing and trimming what the user types.

`app/` is the program around it: screen capture, terminal prompts, files, keyring, HTTP
and DTLS.
