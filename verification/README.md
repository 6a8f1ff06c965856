# cijing_reader

A reading aid for learners of English: an article is split into words, the
words a student of the chosen grade is not expected to know are looked up in
the built-in lexicon and dictionaries, and each is annotated with its
pronunciation and meaning. The annotated article is shown as HTML, printed to
PDF, or packed as a Word document.

- `src/` is the library, verified with Verus: text normalisation, the
  lexicon and the custom word lists, pronunciations, meanings, the choice of
  words to annotate, the preview HTML, the WordprocessingML and its ZIP
  package, the JSON and HTTP framing of the local server, the rules of the
  online translation service, and the decisions of the desktop window.
- `app/` is the program around it: the local HTTP server, the files, the
  headless browser that prints PDFs, the PowerShell translator, the page
  sizes and spacings (which are decimal), and the Windows window.
- `tests/` runs the library on small dictionaries.

The program reads its pages and dictionaries from an `assets` folder beside
it: `web/` (the page, scripts and style sheet), `brand/` (the logo and icon)
and `data/` (the grade profiles and word lists, the seed lexicon, the demo
article, the ECDICT meanings and the CMU pronouncing dictionary).
