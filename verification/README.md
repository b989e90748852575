# pdf-split

A desktop toolbox (Tauri) for PDF, image and video batch jobs: splitting PDF
pages into images, stamping text watermarks on PDFs, images and videos,
extracting embedded images, re-cutting a video series and downloading the
episodes named in TXT lists.

The logic of the tools is a library verified with Verus; the desktop shell
around it does the file, network and process work.

## Layout

- `src/` — the verified library (`pdf_split`):
  - `text.rs` — characters, trimming, ASCII case, decimal numbers, code-point order.
  - `paths.rs` — file names, stems, extensions and components of `/` paths; file kinds; output names.
  - `validation.rs` — required values, IEEE 754 `binary32` checks, directory comparison, watermark options.
  - `jobs.rs` — the checks each command makes before touching a file; where batch outputs may go.
  - `download.rs` — parsing `URL, 剧名 - 第N集` download lists, merging several lists, summaries.
  - `series.rs` — a download run: request checks, counts, failure lines, retries, file names.
  - `listing.rs` — sorted listings of input directories and the checks on preview paths.
  - `batch.rs` — counts and progress of the image, PDF and video batches; one overlay per video size.
  - `recut.rs` — re-cut request checks and progress from the numbered episode files.
  - `properties.rs` — properties that hold across the functions (sorting, uniqueness, round trips).
  - `models.rs` — the records the commands take and give back.
- `tests/` — tests of the library on concrete values.
- `app/` — the Tauri shell: commands, directory walks, HTTP downloads, ffmpeg and the
  PDF/image crates, and the serde forms of the records.

Floating-point parameters are held by their `f32` bit patterns (`Binary32`), so
that their checks are exact integer logic.
