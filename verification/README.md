# lopez

The verified core of Lopez, a polite web crawler driven by a small language of
crawl directives.

- `src/` is the library, checked by Verus: the directive language (types,
  lexical rules, transformers, extractors, aggregators, literals, items and the
  whole-file parser), the checks run on a set of loaded modules, the bounds of a
  crawl (allowed, disallowed and frontier addresses, query parameters, link
  resolution), `robots.txt` rules, the task counter, the master's and the
  workers' decisions (as step functions), what a downloaded page's links
  are, what the transformers make of JSON values (sorting included), the
  counting, first and collecting aggregators, the download decisions, the
  lists of a test report, and the indexing of the link graph for page ranks. Calls
  into `nom`, `regex`, `scraper`, `url`, `robots_txt` and `siphasher` sit behind trusted
  wrappers in `src/outside.rs` (and one in `src/expressions.rs`), each stating
  what the library relies on.
- `tests/` exercises the library through its public interface.
- `app/` is the command line: reading files, printing reports, the loops
  that run the library's step functions, and the parts that compute with
  floating point (number transformers, sums, distinct values and groups,
  ranking pages).
