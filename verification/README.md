# koharu_translator

The decisions behind translating comic text through local and hosted
providers, verified with Verus.

- `validation`: rules that forbid patterns in translated text, the translations
  that violate them, and the feedback that asks a provider for better ones.
- `run`: requests and replies, in turn. An invalid reply is followed by
  another request, with feedback, for the invalid segments only.
- `retry`: how often a provider is asked, which providers read feedback, and how
  later answers take the place of earlier ones.
- `translator`, `local`: the model that is loaded, and whether it sees the image.
- `text`, `positions`, `pattern`: strings, positions and regular expressions.
  `pattern` and `text` hold what is taken on trust from `regex`, `serde_json`
  and the standard library.
- `laws`: what holds of the library as a whole.

`app/` holds what is around these decisions: locks, model loading and requests.
