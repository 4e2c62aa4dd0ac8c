# mmime

A library for reading Internet messages: RFC 2822 headers (addresses, dates,
message identifiers and the other fields), MIME structure (content types,
dispositions, multipart bodies, enclosed messages), the base64 and
quoted-printable transfer encodings and RFC 2047 encoded words. It also writes
header fields back out as folded text.

Every function of the library is verified with Verus: its contract states, over
mathematical models of the bytes and of the parsed values, exactly what it
returns. Character set conversion is done by the `charset` crate, whose two
calls stand behind small trusted functions in `src/charconv.rs`.

Layout:

- `src/` — the verified library, one module per part of the grammar:
  `lex`, `words`, `date`, `address`, `msgid`, `fields` and `header` for RFC 2822;
  `mime_fields`, `mime_disposition`, `mime_header`, `mime_scan`, `mime`,
  `mime_parse` and `mime_section` for MIME; `codec`, `encoded_word` and
  `charconv` for decoding; `imf_write` for writing headers and
  `imf_roundtrip` and `date_roundtrip` for what the parsers read back of what it writes; `clist` and `chash`
  for the list and the hash table that the rest of the interface offers.
- `tests/` — tests on concrete messages.
- `app/` — printing of parsed trees for people to read.
