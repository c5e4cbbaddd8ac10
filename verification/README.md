# remodian

Volume control for a Meridian speaker by infrared remote: a camera reads the
speaker's two-digit display, a controller steps the volume towards a target,
and an IR blaster fires RC5 frames.

The logic is a Verus library in `src/`, each function with a contract:

- `text`: trimming, splitting, decimal parsing and printing on `Seq<char>`.
- `crops`: the crop-region text format (`x,y,...;x,y,...`), with a proved round trip.
- `vision`: digit combination, template loading, bounding boxes, cropping,
  and the detection pipeline around a caller-supplied digit reader.
- `loops`: counting the enclosed loops of a digit mask by flood fill.
- `ir`: RC5 / RC5X frame words, Manchester pulses, request packets and the
  blaster's driver state machine.
- `client`: the commands and what each transport puts on the wire.
- `control`: the controller's decision per round and the volume state.
- `service`: the text answers of the vision and backend services.
- `calibration`: camera selection and the calibration tool's URLs.

`app/` holds the program around it: the HTTP backend, the MQTT / HTTP / UDP
clients, the control and fetch loops, and the floating-point image pipeline
(homography, warp, Otsu threshold, template matching).

Four programs of the system are not part of this crate: the vision server
(camera capture), the calibration GUI, the control GUI and the IR blaster's
firmware. Their logic that is not camera, GUI or hardware work stands in the
library: the vision server's crop defaults and replies (`service`), the
calibration tool's server source and camera choice (`calibration`), and the
firmware's packet parsing, frame encoding and driver (`ir`). The backend's
`get_volume` still asks a running vision server for the volume.
