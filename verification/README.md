# xero_howdy_qt

The logic behind a Qt front end for the Howdy face authentication service,
written in Verus and proved against its contracts.

- `src/text.rs`: a model of the standard text operations used (`trim`,
  `lines`, `contains`, `split`, `replace`, ...) and executable versions
  proved against it.
- `src/pam.rs`: whether a PAM stack enables Howdy, and the edit that turns
  it on or off (with the proofs that the edit flips the state, and that two
  stacks joined by a line break enable Howdy when either does).
- `src/config.rs`: the Howdy `config.ini`: `disabled`, `device_path`, and the
  edit that sets the camera (with the proofs that it reads back, trimmed,
  and that setting the same camera twice changes nothing more).
- `src/howdy.rs`: what the `howdy` command's outputs say.
- `src/numbers.rs`: decimal `i32` text, both ways.
- `src/devices.rs`: the sorted list of camera nodes.
- `src/backend.rs`: the state that the front end shows and how each action
  changes it.
- `src/stdcalls.rs`: the standard-library calls that are trusted.
- `app/`: the QML object; it runs the commands, reads and writes the files,
  and hands the results to the library.
