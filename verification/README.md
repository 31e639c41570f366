# git_repo_analyzer

A service that analyses public GitHub repositories: it clones a repository,
reads which technologies it uses, whether it has a README and tests, scores
it from 0 to 10, and asks a language model (Gemini) for a summary or a
comparison of two repositories. Each client address may make 5 requests
every 10 minutes; a comparison counts as 2.

- `src/` is the library, verified with Verus: URL validation and the other
  decisions around `git` (`git`), the repository analysis and the model's
  context (`analyzer`), files, lines, directory tree, licence, main
  language, dependencies and weaknesses (`inventory`), what is sent to and read back from the model (`ai`),
  the per-client request limit (`rate_limiter`), the request and response
  types (`models`), and the character-level text operations they rest on
  (`text`).
- `app/` is the HTTP server (axum): it runs `git`, reads the clone, talks to
  the model and hands the library plain values.
- `tests/` exercises the library on concrete values.
